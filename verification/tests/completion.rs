use ctrmml_lang_core::completion::{arpeggio_slot, chord_slot, completion_slots_ok, ProviderOutcome};
use ctrmml_lang_core::completion::{
    at_meta_edit_start, byte_offset_to_utf16_character, collect_instrument_param_edit, completion_plan, completion_resolve,
    is_instrument_type_context, is_meta_value_context, is_rate_offset_context, meta_keyword_hash,
    utf16_character_to_byte_offset, word_range_before_cursor, ArpeggioPattern, ChordStackMode, CompletionPlan,
    CompletionSettings, CoreCommand, CoreCompletionList, CoreItem, CoreItemKind, CoreTextEdit, DataPayload, DataRequest,
    EditRange, FmPatchData, InsertFormat, Pos,
};

fn done(text: &str, character: u32) -> CoreCompletionList {
    match completion_plan(
        text,
        Pos { line: 0, character },
        None,
        &CompletionSettings::default(),
    ) {
        CompletionPlan::Done(list) => list,
        CompletionPlan::NeedsData(request) => panic!("unexpected data request: {request:?}"),
    }
}

#[allow(clippy::too_many_arguments)]
fn assert_item(
    item: &CoreItem,
    label: &str,
    kind: CoreItemKind,
    detail: &str,
    insert: &str,
    format: InsertFormat,
    filter_text: &str,
    sort_text: &str,
    start: u32,
    end: u32,
    command: Option<CoreCommand>,
) {
    assert_eq!(item.label, label);
    assert_eq!(item.label_description, None);
    assert_eq!(item.kind, kind);
    assert_eq!(item.detail.as_deref(), Some(detail));
    assert_eq!(item.insert.text, insert);
    assert_eq!(item.insert.format, format);
    assert!(!item.insert.as_is);
    assert_eq!(item.filter_text.as_deref(), Some(filter_text));
    assert_eq!(item.sort_text.as_deref(), Some(sort_text));
    assert!(!item.preselect);
    assert_eq!(
        item.edit_range.start,
        Pos {
            line: 0,
            character: start
        }
    );
    assert_eq!(
        item.edit_range.end,
        Pos {
            line: 0,
            character: end
        }
    );
    assert!(item.additional_edits.is_empty());
    assert_eq!(item.command, command);
}

#[test]
fn settings_defaults_match_plan() {
    let settings = CompletionSettings::default();
    assert!(!settings.arpeggio_enabled);
    assert_eq!(settings.arpeggio_pattern, ArpeggioPattern::Up);
    assert_eq!(settings.chord_stack_mode, ChordStackMode::StackUp);
    assert!(!settings.fm_picker_hierarchy);
}

#[test]
fn data_requests_use_c3_predicates_and_last_slash_fragment() {
    let hierarchy = CompletionSettings {
        fm_picker_hierarchy: true,
        ..CompletionSettings::default()
    };
    let fm_text = "@12 fm banks/sub/kit.dmp/Pa";
    assert_eq!(
        completion_plan(
            fm_text,
            Pos {
                line: 0,
                character: fm_text.len() as u32,
            },
            None,
            &hierarchy,
        ),
        CompletionPlan::NeedsData(DataRequest::FmPatches {
            fragment: Some("banks/sub/kit.dmp".to_string()),
        })
    );
    assert!(matches!(
        completion_plan(
            "@1 pcm",
            Pos {
                line: 0,
                character: 6,
            },
            None,
            &CompletionSettings::default(),
        ),
        CompletionPlan::NeedsData(DataRequest::PcmFiles)
    ));
    assert!(matches!(
        completion_plan(
            "@1 pcm \"drums/",
            Pos {
                line: 0,
                character: 14,
            },
            Some('/'),
            &CompletionSettings::default(),
        ),
        CompletionPlan::NeedsData(DataRequest::PcmPaths)
    ));
    assert!(matches!(
        completion_plan(
            "A c |",
            Pos {
                line: 0,
                character: 5,
            },
            Some('|'),
            &CompletionSettings::default(),
        ),
        CompletionPlan::NeedsData(DataRequest::CursorTick)
    ));

    assert!(!matches!(
        completion_plan(
            "@1 fmx",
            Pos {
                line: 0,
                character: 6,
            },
            None,
            &CompletionSettings::default(),
        ),
        CompletionPlan::NeedsData(_)
    ));
}

#[test]
fn measure_fill_ctrl_space_requests_cursor_tick() {
    assert_eq!(
        completion_plan(
            "A o4 c4 |",
            Pos {
                line: 0,
                character: 9,
            },
            None,
            &CompletionSettings::default(),
        ),
        CompletionPlan::NeedsData(DataRequest::CursorTick)
    );
}

#[test]
fn resolve_rejects_mismatched_payload() {
    let empty = completion_resolve(
        "@1 fm",
        Pos {
            line: 0,
            character: 5,
        },
        None,
        &CompletionSettings::default(),
        DataPayload::PcmFiles(Vec::new()),
    );
    assert!(empty.items.is_empty());
    assert!(!empty.is_incomplete);
}

#[test]
fn hierarchy_single_patch_has_flat_content_and_path_sort() {
    let text = "@1 fm \n; ALG  FB\n    3   4\n\nA c";
    let position = Pos {
        line: 0,
        character: 6,
    };
    let patch = FmPatchData {
        rel_path: "inst/bass.dmp".to_string(),
        name: Some("Bass".to_string()),
        mml: "@1 fm ; Bass\n; ALG  FB\n    4   7\n".to_string(),
        has_macros: false,
    };
    let flat = completion_resolve(
        text,
        position,
        Some(' '),
        &CompletionSettings::default(),
        DataPayload::FmPatches(vec![patch.clone()]),
    );
    let hierarchy = CompletionSettings {
        fm_picker_hierarchy: true,
        ..CompletionSettings::default()
    };
    let collapsed = completion_resolve(
        text,
        position,
        Some(' '),
        &hierarchy,
        DataPayload::FmPatches(vec![patch]),
    );

    let flat_item = &flat.items[0];
    let collapsed_item = &collapsed.items[0];
    let mut expected_item = flat_item.clone();
    expected_item.sort_text = Some("inst/bass.dmp".to_string());
    assert_eq!(collapsed_item, &expected_item);
    assert!(!collapsed_item.additional_edits.is_empty());
}

#[test]
fn hierarchy_fragment_zero_match_returns_template_escape() {
    let hierarchy = CompletionSettings {
        fm_picker_hierarchy: true,
        ..CompletionSettings::default()
    };
    let patch = FmPatchData {
        rel_path: "banks/kit.dmp".to_string(),
        name: Some("Kick".to_string()),
        mml: "@1 fm ; Kick\n  4 7\n".to_string(),
        has_macros: false,
    };

    let stale_text = "@1 fm stale/path/";
    let stale = completion_resolve(
        stale_text,
        Pos {
            line: 0,
            character: stale_text.len() as u32,
        },
        None,
        &hierarchy,
        DataPayload::FmPatches(vec![patch.clone()]),
    );
    assert_eq!(stale.items.len(), 1);
    assert_eq!(stale.items[0].label, "Default FM template");
}

#[test]
fn hierarchy_fragment_nonempty_match_stays_template_free() {
    let hierarchy = CompletionSettings {
        fm_picker_hierarchy: true,
        ..CompletionSettings::default()
    };
    let patch = FmPatchData {
        rel_path: "banks/kit.dmp".to_string(),
        name: Some("Kick".to_string()),
        mml: "@1 fm ; Kick\n  4 7\n".to_string(),
        has_macros: false,
    };

    let matching_text = "@1 fm banks/kit.dmp/";
    let matching = completion_resolve(
        matching_text,
        Pos {
            line: 0,
            character: matching_text.len() as u32,
        },
        None,
        &hierarchy,
        DataPayload::FmPatches(vec![patch]),
    );
    assert_eq!(matching.items.len(), 1);
    assert_eq!(matching.items[0].label, "Kick");
    assert!(matching
        .items
        .iter()
        .all(|item| item.label != "Default FM template"));
}

#[test]
fn fm_resolver_skips_only_degenerate_payload_entries() {
    let patch = |rel_path: &str, mml: &str| FmPatchData {
        rel_path: rel_path.to_string(),
        name: None,
        mml: mml.to_string(),
        has_macros: false,
    };
    let list = completion_resolve(
        "@1 fm ",
        Pos {
            line: 0,
            character: 6,
        },
        Some(' '),
        &CompletionSettings::default(),
        DataPayload::FmPatches(vec![
            patch("", "@1 fm\n  1\n"),
            patch("a/", "@1 fm\n  2\n"),
            patch("lead", "@1 fm\n  3\n"),
            patch("blank.dmp", " \n\t "),
            patch("empty.dmp", ""),
        ]),
    );

    assert_eq!(
        list.items
            .iter()
            .map(|item| item.label.as_str())
            .collect::<Vec<_>>(),
        vec!["a/", "lead", "Default FM template"]
    );
    assert_eq!(list.items[0].detail.as_deref(), Some("instrument"));
    assert_eq!(list.items[1].detail.as_deref(), Some("instrument"));
    assert_eq!(list.items[0].sort_text.as_deref(), Some("0000"));
    assert_eq!(list.items[1].sort_text.as_deref(), Some("0001"));
}

#[test]
fn hierarchy_two_patch_file_drills_down() {
    let hierarchy = CompletionSettings {
        fm_picker_hierarchy: true,
        ..CompletionSettings::default()
    };
    let list = completion_resolve(
        "@1 fm ",
        Pos {
            line: 0,
            character: 6,
        },
        Some(' '),
        &hierarchy,
        DataPayload::FmPatches(vec![
            FmPatchData {
                rel_path: "banks/kit.dmp".to_string(),
                name: Some("Kick".to_string()),
                mml: "@1 fm ; Kick\n  4 7\n".to_string(),
                has_macros: false,
            },
            FmPatchData {
                rel_path: "banks/kit.dmp".to_string(),
                name: Some("Snare".to_string()),
                mml: "@1 fm ; Snare\n  3 2\n".to_string(),
                has_macros: false,
            },
        ]),
    );

    assert_eq!(list.items.len(), 2);
    let item = &list.items[0];
    assert_eq!(item.label, "banks/kit.dmp");
    assert_eq!(item.label_description.as_deref(), Some("2"));
    assert_eq!(item.kind, CoreItemKind::File);
    assert_eq!(item.insert.text, " banks/kit.dmp/");
    assert_eq!(item.command, Some(CoreCommand::TriggerSuggest));
}

#[test]
fn hierarchy_mixed_payload_matches_fixture_order() {
    let hierarchy = CompletionSettings {
        fm_picker_hierarchy: true,
        ..CompletionSettings::default()
    };
    let list = completion_resolve(
        "@1 fm ",
        Pos {
            line: 0,
            character: 6,
        },
        Some(' '),
        &hierarchy,
        DataPayload::FmPatches(vec![
            FmPatchData {
                rel_path: "inst/bass.dmp".to_string(),
                name: Some("Bass".to_string()),
                mml: "@1 fm ; Bass\n; ALG  FB\n    4   7\n".to_string(),
                has_macros: false,
            },
            FmPatchData {
                rel_path: "inst/multi.dmp".to_string(),
                name: Some("Pad".to_string()),
                mml: "@1 fm ; Pad\n; ALG  FB\n    2   0\n".to_string(),
                has_macros: false,
            },
            FmPatchData {
                rel_path: "inst/multi.dmp".to_string(),
                name: Some("Brass".to_string()),
                mml: "@1 fm ; Brass\n; ALG  FB\n    6   1\n".to_string(),
                has_macros: true,
            },
        ]),
    );

    assert_eq!(
        list.items
            .iter()
            .map(|item| (item.label.as_str(), item.kind))
            .collect::<Vec<_>>(),
        vec![
            ("inst/bass.dmp — Bass", CoreItemKind::Snippet),
            ("inst/multi.dmp", CoreItemKind::File),
            ("Default FM template", CoreItemKind::Snippet),
        ]
    );
    assert_eq!(list.items[0].sort_text.as_deref(), Some("inst/bass.dmp"));
    assert_eq!(list.items[1].sort_text.as_deref(), Some("inst/multi.dmp"));
}

#[test]
fn instrument_param_collection_preserves_ts_stop_and_eof_rules() {
    let edit = collect_instrument_param_edit(
        "@1 fm\n\n; header\n; 'platform'\n  3, 4 ; params\n\nA c",
        0,
    );
    assert_eq!(
        edit,
        vec![CoreTextEdit {
            range: EditRange::new(
                Pos {
                    line: 1,
                    character: 0,
                },
                Pos {
                    line: 5,
                    character: 0,
                },
            ),
            new_text: String::new(),
        }]
    );

    let eof = collect_instrument_param_edit("@1 fm\n  3, 4", 0);
    assert_eq!(
        eof[0].range.end,
        Pos {
            line: 1,
            character: 6
        }
    );
    assert!(collect_instrument_param_edit("@1 fm\n; header\nA c", 0).is_empty());
}

#[test]
fn instrument_param_collection_accepts_unindented_digit_rows() {
    let edit = collect_instrument_param_edit("@1 fm\n; ALG  FB\n3 4\n31 0 0 5\n\nA c", 0);
    assert_eq!(
        edit,
        vec![CoreTextEdit {
            range: EditRange::new(
                Pos {
                    line: 1,
                    character: 0,
                },
                Pos {
                    line: 4,
                    character: 0,
                },
            ),
            new_text: String::new(),
        }]
    );
}

#[test]
fn instrument_param_collection_stops_at_digit_track_with_note_letters() {
    let stopped = collect_instrument_param_edit("@1 fm\n3 4\n4 c4 d e\n5 6", 0);
    assert_eq!(
        stopped[0].range.end,
        Pos {
            line: 2,
            character: 0,
        }
    );
}

#[test]
fn utf16_and_byte_offsets_round_trip_at_every_scalar_boundary() {
    let line = "A 日本語 😀 ドラム";
    let mut utf16 = 0u32;
    assert_eq!(utf16_character_to_byte_offset(line, utf16), 0);
    for (byte, ch) in line.char_indices() {
        assert_eq!(byte_offset_to_utf16_character(line, byte), utf16);
        assert_eq!(utf16_character_to_byte_offset(line, utf16), byte);
        utf16 += ch.len_utf16() as u32;
    }
    assert_eq!(utf16_character_to_byte_offset(line, utf16), line.len());
    assert_eq!(byte_offset_to_utf16_character(line, line.len()), utf16);
}

#[test]
fn utf16_helpers_clamp_invalid_and_mid_scalar_offsets() {
    let line = "あ😀い";
    assert_eq!(utf16_character_to_byte_offset(line, 2), 3);
    assert_eq!(byte_offset_to_utf16_character(line, 2), 0);
    assert_eq!(utf16_character_to_byte_offset(line, 999), line.len());
    assert_eq!(byte_offset_to_utf16_character(line, 999), 4);
}

#[test]
fn word_range_is_ascii_run_before_cursor() {
    let range = word_range_before_cursor(
        "日本 foo_12",
        Pos {
            line: 4,
            character: 9,
        },
    );
    assert_eq!(
        range.start,
        Pos {
            line: 4,
            character: 3
        }
    );
    assert_eq!(
        range.end,
        Pos {
            line: 4,
            character: 9
        }
    );
}

#[test]
fn platform_commands_match_fixture_shape() {
    let list = done("A '", 3);
    assert!(!list.is_incomplete);
    assert_eq!(list.items.len(), 37);
    let first = &list.items[0];
    assert_eq!(first.label, "fm3 <mask>");
    assert_eq!(first.kind, CoreItemKind::Function);
    assert_eq!(first.detail.as_deref(), Some("FM3 special mode."));
    assert!(first
        .documentation
        .as_deref()
        .unwrap()
        .contains("Enable FM3 special mode for selected operators"));
    assert_eq!(first.insert.text, "fm3 0000");
    assert_eq!(first.insert.format, InsertFormat::PlainText);
    assert_eq!(first.filter_text.as_deref(), Some("fm3"));
    assert_eq!(first.sort_text.as_deref(), Some("000"));
    assert_eq!(first.edit_range.start.character, 3);
    assert_eq!(first.edit_range.end.character, 3);

    assert_eq!(list.items[7].label, "write <register> <data>");
    assert_eq!(list.items[7].sort_text.as_deref(), Some("007"));
    assert_eq!(list.items[36].label, "ssg4 <value>");
    assert_eq!(list.items[36].sort_text.as_deref(), Some("036"));
}

#[test]
fn platform_command_range_uses_last_inner_whitespace() {
    let item = &done("A 'fm3 000", 10).items[0];
    assert_eq!(item.edit_range.start.character, 7);
    assert_eq!(item.edit_range.end.character, 10);
}

#[test]
fn platform_command_range_is_utf16_with_multibyte_prefix() {
    let item = &done("A 'あ fm", 7).items[0];
    assert_eq!(item.edit_range.start.character, 5);
    assert_eq!(item.edit_range.end.character, 7);
}

#[test]
fn meta_keywords_match_fixture_exactly() {
    let list = done("#ti", 3);
    assert!(!list.is_incomplete);
    let expected = [
        ("#title", "Song title.", "title", false),
        ("#composer", "Original composer.", "composer", false),
        ("#programmer", "MML programmer.", "programmer", false),
        ("#author", "Song metadata.", "author", false),
        ("#date", "Song metadata.", "date", false),
        ("#comment", "Song metadata.", "comment", false),
        (
            "#platform",
            "Choose the Mega Drive playback mode.",
            "platform",
            true,
        ),
        ("#option", "Sets platform options.", "option", true),
        ("#group", "MDSDRV song group.", "group", true),
        ("#game", "Song metadata.", "game", false),
        ("#composerj", "Song metadata.", "composerj", false),
        ("#license", "License information.", "license", false),
        (
            "#timesig",
            "Time signature for piano roll.",
            "timesig",
            true,
        ),
    ];
    assert_eq!(list.items.len(), expected.len());
    for (index, (item, (label, detail, insert, triggers))) in
        list.items.iter().zip(expected).enumerate()
    {
        assert_item(
            item,
            label,
            CoreItemKind::Keyword,
            detail,
            insert,
            InsertFormat::PlainText,
            label,
            &format!("{index:03}"),
            1,
            3,
            triggers.then_some(CoreCommand::TriggerSuggest),
        );
    }
    assert!(list.items[0]
        .documentation
        .as_deref()
        .unwrap()
        .contains("Set the song title."));
    assert_eq!(list.items[3].documentation, None);

    let fallback = done("x #ti", 5);
    assert!(fallback.is_incomplete);
    assert_eq!(fallback.items.len(), 37);
    assert_eq!(fallback.items[0].edit_range.start.character, 3);
    assert_eq!(fallback.items[0].edit_range.end.character, 5);
}

#[test]
fn meta_keyword_predicate_rejects_nonleading_hash_and_whitespace() {
    assert_eq!(meta_keyword_hash("  #plat"), Some(2));
    assert_eq!(meta_keyword_hash("x #plat"), None);
    assert_eq!(meta_keyword_hash("#platform "), None);
    assert_eq!(meta_keyword_hash("platform"), None);
    assert_eq!(meta_keyword_hash("#ti#tle"), None);
    assert_eq!(meta_keyword_hash("##"), None);

    for (text, character) in [("#ti#tle", 7), ("##", 2)] {
        let list = done(text, character);
        assert!(!list.is_incomplete, "{text}");
        assert!(list.items.is_empty(), "{text}");
    }
}

#[test]
fn meta_values_match_all_fixture_tables_and_live_word_range() {
    let cases: [(&str, u32, &[(&str, &str)]); 4] = [
        (
            "#platform ",
            10,
            &[
                ("megadrive", "Mega Drive / Genesis"),
                ("mdsdrv", "MDSDRV sound driver"),
            ],
        ),
        (
            "#option ",
            8,
            &[("noextpitch", "Disable extended pitch envelopes")],
        ),
        (
            "#timesig ",
            9,
            &[
                ("3/4", "Three beats per measure."),
                ("4/4", "Four beats per measure (default)."),
                ("5/4", "Five beats per measure."),
                ("6/8", "Six eighth-note beats per measure."),
                ("no", "No measure lines."),
            ],
        ),
        (
            "#group ",
            7,
            &[
                ("bgm", "Background music group."),
                ("se", "Sound effect group."),
            ],
        ),
    ];
    for (text, character, expected) in cases {
        let list = done(text, character);
        assert!(!list.is_incomplete, "{text}");
        assert_eq!(list.items.len(), expected.len(), "{text}");
        for (index, (item, (label, detail))) in list.items.iter().zip(expected).enumerate() {
            assert_item(
                item,
                label,
                CoreItemKind::Value,
                detail,
                label,
                InsertFormat::PlainText,
                label,
                &format!("{index:03}"),
                character,
                character,
                None,
            );
        }
    }
    assert!(done("#platform ", 10).items[0]
        .documentation
        .as_deref()
        .unwrap()
        .contains("Use raw VGM DAC stream playback for PCM"));
    assert!(done("#timesig ", 9).items[4]
        .documentation
        .as_deref()
        .unwrap()
        .contains("disables the `|` bar-line rest fill"));

    let live = done("#platform me", 12);
    assert_eq!(live.items.len(), 2);
    assert!(live.items.iter().all(|item| item.edit_range
        == EditRange::new(
            Pos {
                line: 0,
                character: 10
            },
            Pos {
                line: 0,
                character: 12
            },
        )));

    let timesig = done("#timesig 3/", 11);
    assert_eq!(timesig.items.len(), 5);
    assert!(timesig.items.iter().all(|item| item.edit_range
        == EditRange::new(
            Pos {
                line: 0,
                character: 9
            },
            Pos {
                line: 0,
                character: 11
            },
        )));

    let platform = done("#platform mega-", 15);
    assert_eq!(platform.items.len(), 2);
    assert!(platform.items.iter().all(|item| item.edit_range
        == EditRange::new(
            Pos {
                line: 0,
                character: 10
            },
            Pos {
                line: 0,
                character: 15
            },
        )));
}

#[test]
fn meta_value_predicate_requires_exact_keyword_then_whitespace() {
    assert!(is_meta_value_context("  #platform me", "#platform"));
    assert!(!is_meta_value_context("#platform", "#platform"));
    assert!(!is_meta_value_context("#platformx ", "#platform"));
    assert!(!is_meta_value_context("#option value", "#platform"));
}

#[test]
fn at_meta_matches_fixture_exactly_and_has_negative_cases() {
    let list = done("@M", 2);
    assert!(!list.is_incomplete);
    assert_eq!(list.items.len(), 2);
    assert_item(
        &list.items[0],
        "@<num>",
        CoreItemKind::Struct,
        "Instrument definition",
        "${1:num}",
        InsertFormat::Snippet,
        "@<num>",
        "000",
        1,
        2,
        None,
    );
    assert_item(
        &list.items[1],
        "@M<num>",
        CoreItemKind::Struct,
        "Pitch envelope",
        "M${1:num}",
        InsertFormat::Snippet,
        "@M<num>",
        "001",
        1,
        2,
        None,
    );
    assert!(list.items[0]
        .documentation
        .as_deref()
        .unwrap()
        .contains("Define an instrument table."));
    assert!(list.items[1]
        .documentation
        .as_deref()
        .unwrap()
        .contains("Define a pitch envelope table."));
    assert_eq!(at_meta_edit_start("  @M"), Some(3));
    assert_eq!(at_meta_edit_start("x @M"), None);
    assert_eq!(at_meta_edit_start("@M1"), None);
    assert_eq!(at_meta_edit_start("@M "), None);

    for (text, cursor, start) in [("@", 1, 1), ("@M", 2, 1), ("@E", 2, 1), ("@@", 2, 2)] {
        let list = done(text, cursor);
        assert_eq!(list.items.len(), 2, "{text}");
        assert!(
            list.items.iter().all(|item| item.edit_range
                == EditRange::new(
                    Pos {
                        line: 0,
                        character: start
                    },
                    Pos {
                        line: 0,
                        character: cursor
                    },
                )),
            "{text}"
        );
    }
}

#[test]
fn instrument_types_match_fixture_exactly() {
    let list = done("@1 ", 3);
    assert!(list.is_incomplete);
    let expected = [
        (
            "pcm",
            "PCM sample instrument",
            "pcm ",
            InsertFormat::PlainText,
            true,
        ),
        (
            "fm",
            "FM synthesis instrument",
            "fm ",
            InsertFormat::PlainText,
            true,
        ),
        (
            "psg",
            "PSG envelope instrument",
            "psg ",
            InsertFormat::PlainText,
            false,
        ),
        (
            "2op",
            "2-operator FM instrument",
            "2op   ${1:2}   ${2:5}   ${3:5}   ${4:4}   ${5:4}   ${6:0}",
            InsertFormat::Snippet,
            false,
        ),
    ];
    assert_eq!(list.items.len(), expected.len());
    for (index, (item, (label, detail, insert, format, triggers))) in
        list.items.iter().zip(expected).enumerate()
    {
        assert_item(
            item,
            label,
            CoreItemKind::TypeParameter,
            detail,
            insert,
            format,
            label,
            &format!("{index:03}"),
            3,
            3,
            triggers.then_some(CoreCommand::TriggerSuggest),
        );
    }
    assert!(list.items[0]
        .documentation
        .as_deref()
        .unwrap()
        .contains("PCM samples are defined as instruments."));
    assert!(list.items[1]
        .documentation
        .as_deref()
        .unwrap()
        .contains("FM instruments are defined with ALG"));
    assert!(list.items[2]
        .documentation
        .as_deref()
        .unwrap()
        .contains("PSG instruments (envelopes) are defined"));
    assert!(list.items[3]
        .documentation
        .as_deref()
        .unwrap()
        .contains("Create a derived FM instrument"));
}

#[test]
fn instrument_type_predicate_stays_live_but_rejects_fmx() {
    let live = done("@1 f", 4);
    assert!(live.is_incomplete);
    assert_eq!(live.items.len(), 4);
    assert_eq!(live.items[1].label, "fm");
    assert_eq!(live.items[1].edit_range.start.character, 3);
    assert_eq!(live.items[1].edit_range.end.character, 4);
    assert_eq!(live.items[1].command, Some(CoreCommand::TriggerSuggest));

    let fmx = done("@1 fmx", 6);
    assert!(!fmx.is_incomplete);
    assert!(fmx.items.is_empty());
    assert!(!is_instrument_type_context("@1 fmx"));
    assert!(!is_rate_offset_context("@1 fmx"));

    assert!(!is_instrument_type_context("@ "));
    assert!(!is_instrument_type_context("@1"));
    assert!(!is_instrument_type_context("@1\t"));
    assert!(!is_instrument_type_context("@1 xyz"));
}

#[test]
fn rate_offset_matches_both_fixtures_and_quote_aware_shape() {
    for (text, character) in [
        ("@1 pcm \"drums/kick.wav\" ", 24),
        ("@1 pcm \"drums/kick.wav\" rate=8000 ", 34),
    ] {
        let list = done(text, character);
        assert!(!list.is_incomplete);
        assert_eq!(list.items.len(), 2);
        assert_item(
            &list.items[0],
            "rate=<num>",
            CoreItemKind::Property,
            "Override the sample rate.",
            "rate=${1:<num>}",
            InsertFormat::Snippet,
            "rate=",
            "000",
            character,
            character,
            None,
        );
        assert_item(
            &list.items[1],
            "offset=<num>",
            CoreItemKind::Property,
            "Adjust the start position.",
            "offset=${1:<num>}",
            InsertFormat::Snippet,
            "offset=",
            "001",
            character,
            character,
            None,
        );
        assert!(list.items[0]
            .documentation
            .as_deref()
            .unwrap()
            .contains("Override the sample rate of a PCM instrument."));
        assert!(list.items[1]
            .documentation
            .as_deref()
            .unwrap()
            .contains("Adjust the start position of a PCM instrument"));
    }
    assert!(is_rate_offset_context("@1 pcm \"a b.wav\" "));
}

#[test]
fn rate_offset_predicate_rejects_wrong_shape() {
    assert!(!is_rate_offset_context("@1 pcm \"a.wav\""));
    assert!(!is_rate_offset_context("@1 pcm "));
    assert!(!is_rate_offset_context("1 pcm \"a.wav\" "));
    assert!(!is_rate_offset_context("@1 fm \"a.wav\" "));
    assert!(!is_rate_offset_context("@1 pcm a.wav "));
}

#[test]
fn command_fallback_matches_fixture_shape_and_word_range() {
    let empty_word_list = done("A ", 2);
    assert_eq!(empty_word_list.items[0].edit_range.start.character, 2);
    assert_eq!(empty_word_list.items[0].edit_range.end.character, 2);

    let list = done("A o", 3);
    assert!(list.is_incomplete);
    assert_eq!(list.items.len(), 37);
    assert_eq!(list.items[0].label, "cdefgabh");
    assert_eq!(list.items[0].kind, CoreItemKind::Function);
    assert_eq!(list.items[0].insert.format, InsertFormat::PlainText);
    assert_eq!(list.items[0].filter_text.as_deref(), Some("notes"));
    assert_eq!(list.items[0].sort_text.as_deref(), Some("000"));
    assert_eq!(list.items[0].edit_range.start.character, 2);
    assert_eq!(list.items[0].edit_range.end.character, 3);
    assert_eq!(list.items[1].insert.text, "r${1:duration}");
    assert_eq!(list.items[1].insert.format, InsertFormat::Snippet);
    assert_eq!(list.items[36].insert.format, InsertFormat::PlainText);
    assert_eq!(list.items[36].sort_text.as_deref(), Some("036"));
}

#[test]
fn command_fallback_is_safe_after_multibyte_track_text() {
    let list = done("A ドラム ", 6);
    assert!(list.is_incomplete);
    assert_eq!(list.items.len(), 37);
}

#[test]
fn out_of_range_line_is_an_empty_exclusive_result() {
    match completion_plan(
        "A c4",
        Pos {
            line: 9999,
            character: 0,
        },
        None,
        &CompletionSettings::default(),
    ) {
        CompletionPlan::Done(list) => {
            assert!(!list.is_incomplete);
            assert!(list.items.is_empty());
        }
        CompletionPlan::NeedsData(request) => {
            panic!("unexpected data request: {request:?}")
        }
    }
}

#[test]
fn comment_guard_is_quote_aware_and_utf16_safe() {
    assert!(done("A c4 ; 日本語の注釈", 13).items.is_empty());
    let list = done("A c 'sr1 0;0' ", 14);
    assert_eq!(list.items.len(), 37);
    assert!(list.is_incomplete);
}

#[test]
fn key_signature_guard_is_exclusive() {
    assert!(done("A _{F", 5).items.is_empty());
}

#[test]
fn leading_track_selector_guard_is_exclusive() {
    assert!(done("AB c4", 2).items.is_empty());
}

#[test]
fn note_and_rest_suppression_matches_ts_suffix_semantics() {
    for (text, character) in [
        ("A c", 3),
        ("A c8.", 5),
        ("A c:12", 6),
        ("A >c", 4),
        ("A r4", 4),
        ("A r:12", 6),
    ] {
        assert!(done(text, character).items.is_empty(), "{text}");
    }

    for (text, character) in [("A r4x", 4), ("A rx", 3)] {
        let list = done(text, character);
        assert!(list.is_incomplete, "{text}");
        assert_eq!(list.items.len(), 37, "{text}");
    }
}

#[test]
fn hash_and_at_prefix_bails_are_exclusive() {
    assert!(done("#title My Song", 14).items.is_empty());
    assert!(done("@1 xyz", 6).items.is_empty());
}

#[test]
fn resolve_reruns_stage_one_cascade_for_any_payload() {
    let settings = CompletionSettings::default();
    let list = completion_resolve(
        "A ",
        Pos {
            line: 0,
            character: 2,
        },
        None,
        &settings,
        DataPayload::PcmPaths(vec!["kick.wav".to_string()]),
    );
    assert_eq!(list.items.len(), 37);
    assert!(list.is_incomplete);
}

#[test]
fn chord_provider_claims_fm_block_rejection_with_empty_exclusive_outcome() {
    let text = "@1 fm\n{c";
    let line: Vec<char> = "{c".chars().collect();
    let outcome = chord_slot(text, &line, 2, 1, &CompletionSettings::default());
    assert!(matches!(
        outcome,
        ProviderOutcome::Exclusive(list) if list.items.is_empty() && !list.is_incomplete
    ));
}

#[test]
fn chord_completion_offers_dyads_generic_and_named_chords() {
    let list = done("A {c", 4);
    assert_eq!(list.items.len(), 23);
    assert!(!list.is_incomplete);
    assert_eq!(list.items[0].label, "C2");
    assert_eq!(list.items[0].detail.as_deref(), Some("2-note dyad · 2nd"));
    assert_eq!(list.items[6].label, "Chord (3 notes)");
    assert_eq!(list.items[7].label, "Chord (4 notes)");
    assert_eq!(list.items[8].label, "Cm");
    assert_eq!(list.items[22].label, "C4th");
    assert_eq!(list.items[8].sort_text.as_deref(), Some("008"));
    for item in &list.items {
        assert!(item.insert.text.ends_with('}'), "{}", item.insert.text);
        assert_eq!(item.kind, CoreItemKind::Snippet);
    }
}

#[test]
fn chord_completion_plain_mode_renders_letters_only() {
    let settings = CompletionSettings { chord_stack_mode: ChordStackMode::Plain, ..CompletionSettings::default() };
    let text = "A {c}";
    match completion_plan(text, Pos { line: 0, character: 4 }, None, &settings) {
        CompletionPlan::Done(list) => {
            assert_eq!(list.items[6].insert.text, "c/e/g");
            assert_eq!(list.items[6].filter_text.as_deref(), Some("C"));
            assert_eq!(list.items[3].insert.text, "c/g");
        },
        CompletionPlan::NeedsData(request) => panic!("unexpected data request: {request:?}"),
    }
}

#[test]
fn chord_completion_follows_the_track_channel_count() {
    // Two channels: dyads only, with the fifth preselected.
    let list = done("AB {c", 5);
    assert_eq!(list.items.len(), 6);
    assert!(list.items[3].preselect);
    assert!(!list.items[0].preselect);
}

#[test]
fn chord_completion_is_silent_inside_a_key_signature_block() {
    assert!(done("A _{c", 5).items.is_empty());
}

#[test]
fn arpeggio_completion_is_opt_in() {
    let list = done("A c", 3);
    assert!(list.items.iter().all(|item| !item.label.starts_with("Arpeggio")));
    let settings = CompletionSettings { arpeggio_enabled: true, ..CompletionSettings::default() };
    match completion_plan("A c", Pos { line: 0, character: 3 }, None, &settings) {
        CompletionPlan::Done(list) => {
            assert_eq!(list.items.len(), 18);
            assert_eq!(list.items[0].label, "Arpeggio (3 notes)");
            assert!(list.items[0].preselect);
            assert_eq!(list.items[1].label, "Arpeggio (4 notes)");
            assert_eq!(list.items[2].label, "C");
            assert_eq!(list.items[3].label, "Cm");
            assert!(list.items[0].detail.as_deref().unwrap().ends_with(" · Up"));
        },
        CompletionPlan::NeedsData(request) => panic!("unexpected data request: {request:?}"),
    }
}

#[test]
fn arpeggio_slot_does_not_apply_inside_braces() {
    let settings = CompletionSettings { arpeggio_enabled: true, ..CompletionSettings::default() };
    let line: Vec<char> = "A {e c".chars().collect();
    assert!(matches!(arpeggio_slot("A {e c", &line, 6, 0, &settings), ProviderOutcome::NotApplicable));
}

#[test]
fn completion_limits_hold_for_ordinary_documents() {
    let settings = CompletionSettings::default();
    assert!(completion_slots_ok("A {c", Pos { line: 0, character: 4 }, &settings));
    assert!(completion_slots_ok("A c", Pos { line: 0, character: 3 }, &settings));
    assert!(completion_slots_ok("", Pos { line: 5, character: 0 }, &settings));
}
