use std::collections::BTreeSet;

use ctrmml_lang_core::arpeggio::{
    chord_defs_for_arpeggio, parse_note_sequence, pattern_by_name, patterns, render_arpeggio_body,
    render_chord_arpeggio, render_chord_arpeggio_with_pattern, render_generic_arpeggio, render_mml_note,
    resolve_chord_notes, ResolvedNote,
};
use ctrmml_lang_core::chord::{
    chord_natural_semitones, chords_3, chords_4, render_chord, render_generic_chord,
    render_generic_diatonic_dyad, render_stacked_chord, render_stacked_generic_chord,
    render_stacked_generic_diatonic_dyad, spell_tone, ChordDef, ChordSize, RootAccidental, SpelledTone,
};
use ctrmml_lang_core::completion::types::ArpeggioPattern;
use ctrmml_lang_core::key_sig::KeySig;

fn no_key() -> KeySig {
    KeySig::new()
}

fn all_defs() -> Vec<ChordDef> {
    chords_3().into_iter().chain(chords_4()).collect()
}

/// A diatonic dyad: the upper tone `step` letters above the root.
struct Dyad {
    step: i32,
    name: &'static str,
}

/// The six diatonic dyads, a second through a seventh.
const DYADS: [Dyad; 6] = [
    Dyad { step: 1, name: "2nd" },
    Dyad { step: 2, name: "3rd" },
    Dyad { step: 3, name: "4th" },
    Dyad { step: 4, name: "5th" },
    Dyad { step: 5, name: "6th" },
    Dyad { step: 6, name: "7th" },
];

fn named(suffix: &str) -> ChordDef {
    chords_3()
        .into_iter()
        .chain(chords_4())
        .find(|def| def.suffix == suffix)
        .unwrap()
}

#[test]
fn resolves_named_chord_octaves_and_accidentals() {
    let c_major = resolve_chord_notes('c', None, &named(""), &no_key(), 4).unwrap();
    assert_eq!(
        c_major,
        vec![
            ResolvedNote {
                letter: 'c',
                accidental: 0,
                octave: 4,
                pitch: 48
            },
            ResolvedNote {
                letter: 'e',
                accidental: 0,
                octave: 4,
                pitch: 52
            },
            ResolvedNote {
                letter: 'g',
                accidental: 0,
                octave: 4,
                pitch: 55
            },
        ]
    );
    let f_major = resolve_chord_notes('f', None, &named(""), &no_key(), 4).unwrap();
    assert_eq!(f_major[2].letter, 'c');
    assert_eq!(f_major[2].octave, 5);
    assert_eq!(
        resolve_chord_notes('c', None, &named("m"), &no_key(), 4).unwrap()[1].accidental,
        -1
    );
}

#[test]
fn parses_sequences_and_rejects_unexpected_characters() {
    assert_eq!(
        parse_note_sequence("fa>c", 4, &no_key()).unwrap(),
        vec![
            ResolvedNote {
                letter: 'f',
                accidental: 0,
                octave: 4,
                pitch: 53
            },
            ResolvedNote {
                letter: 'a',
                accidental: 0,
                octave: 4,
                pitch: 57
            },
            ResolvedNote {
                letter: 'c',
                accidental: 0,
                octave: 5,
                pitch: 60
            },
        ]
    );
    assert_eq!(
        parse_note_sequence("ce-g", 4, &no_key()).unwrap()[1].accidental,
        -1
    );
    assert!(parse_note_sequence("c8", 4, &no_key()).is_none());
}

#[test]
fn parse_note_sequence_preserves_accidental_octave_carry_in_absolute_pitch() {
    assert_eq!(
        parse_note_sequence("b+", 4, &no_key()).unwrap()[0].pitch,
        60
    );
    assert_eq!(
        parse_note_sequence("c-", 4, &no_key()).unwrap()[0].pitch,
        47
    );
    assert_eq!(
        parse_note_sequence(">c-<b+", 4, &no_key())
            .unwrap()
            .iter()
            .map(|note| note.pitch)
            .collect::<Vec<_>>(),
        vec![59, 60]
    );
}

#[test]
fn pattern_lookup_is_case_sensitive() {
    assert_eq!(pattern_by_name("Up"), Some(ArpeggioPattern::Up));
    assert_eq!(pattern_by_name("up"), None);
}

#[test]
fn pattern_indices_for_each_pattern() {
    assert_eq!(ArpeggioPattern::Alberti.indices(4), vec![0, 3, 1, 2]);
    assert_eq!(ArpeggioPattern::Alberti.indices(3), vec![0, 2, 1, 2]);
    assert!(ArpeggioPattern::Alberti.indices(2).is_empty());
    assert_eq!(ArpeggioPattern::Up.indices(3), vec![0, 1, 2]);
    assert_eq!(ArpeggioPattern::Down.indices(3), vec![2, 1, 0]);
    assert_eq!(ArpeggioPattern::UpDown.indices(4), vec![0, 1, 2, 3, 2, 1]);
    assert_eq!(ArpeggioPattern::DownUp.indices(4), vec![3, 2, 1, 0, 1, 2]);
    assert_eq!(ArpeggioPattern::UpDown.indices(1), vec![0]);
    assert!(ArpeggioPattern::DownUp.indices(0).is_empty());
}

#[test]
fn pattern_names_details_and_minimums() {
    assert_eq!(ArpeggioPattern::UpDown.name(), "UpDown");
    assert_eq!(ArpeggioPattern::Alberti.detail(), "Alberti bass (low-high-mid-high)");
    assert_eq!(ArpeggioPattern::Down.min_notes(), 2);
    assert_eq!(ArpeggioPattern::DownUp.min_notes(), 3);
    assert_eq!(pattern_by_name("Alberti"), Some(ArpeggioPattern::Alberti));
}

#[test]
fn resolve_uses_key_signature_and_typed_accidental() {
    let key = KeySig::new().with('b', -1);
    let b_flat = resolve_chord_notes('b', None, &named(""), &key, 3).unwrap();
    assert_eq!(b_flat[0].accidental, -1);
    assert_eq!(b_flat[0].pitch, 46);
    assert_eq!(b_flat[1].letter, 'd');
    assert_eq!(b_flat[1].octave, 4);
    let b_sharp = resolve_chord_notes('b', Some(RootAccidental::Sharp), &named(""), &key, 3).unwrap();
    assert_eq!(b_sharp[0].pitch, 48);
    assert!(resolve_chord_notes('h', None, &named(""), &key, 3).is_none());
}

#[test]
fn chord_defs_list_triads_then_sevenths() {
    let defs = chord_defs_for_arpeggio();
    assert_eq!(defs.len(), 16);
    assert_eq!(defs[0].1, 3);
    assert_eq!(defs[0].0.suffix, "");
    assert_eq!(defs[7].1, 4);
    assert_eq!(defs[7].0.suffix, "M7");
}

#[derive(Debug, Clone, Copy)]
enum OracleKeySig {
    Unsigned,
    SharpSide,
    FlatSide,
}

impl OracleKeySig {
    fn accidental(self, letter: char) -> i32 {
        match (self, letter) {
            (Self::SharpSide, 'f') => 1,
            (Self::FlatSide, 'b') => -1,
            _ => 0,
        }
    }

    fn production(self) -> KeySig {
        match self {
            Self::Unsigned => KeySig::new(),
            Self::SharpSide => KeySig::new().with('f', 1),
            Self::FlatSide => KeySig::new().with('b', -1),
        }
    }
}

/// Evaluate rendered ctrmml text without consulting production note
/// resolution. Slash-delimited chord branches each restart from the
/// channel octave; an arpeggio has one branch, so octave shifts persist.
fn evaluate_rendered(
    text: &str,
    starting_channel_octave: i32,
    key_sig: OracleKeySig,
) -> BTreeSet<(i32, i32)> {
    let mut pitches = BTreeSet::new();

    for branch in text.split('/') {
        assert!(!branch.is_empty(), "empty MML branch in {text:?}");
        let mut chars = branch.chars().peekable();
        let mut octave = starting_channel_octave;

        while let Some(character) = chars.next() {
            match character {
                '>' => octave += 1,
                '<' => octave -= 1,
                letter @ ('a'..='g') => {
                    let accidental = match chars.peek().copied() {
                        Some('+') => {
                            chars.next();
                            1
                        }
                        Some('-') => {
                            chars.next();
                            -1
                        }
                        Some('=') => {
                            chars.next();
                            0
                        }
                        _ => key_sig.accidental(letter),
                    };
                    let pitch =
                        octave * 12 + chord_natural_semitones(letter).unwrap() + accidental;
                    pitches.insert((pitch.rem_euclid(12), pitch.div_euclid(12)));
                }
                other => panic!("unexpected MML character {other:?} in {text:?}"),
            }
        }
    }

    pitches
}

fn assert_rendered_sets_match(
    chord: &str,
    arpeggio: &str,
    starting_channel_octave: i32,
    key_sig: OracleKeySig,
    compare_absolute_pitches: bool,
    context: &str,
) {
    let chord_pitches = evaluate_rendered(chord, starting_channel_octave, key_sig);
    let arpeggio_pitches = evaluate_rendered(arpeggio, starting_channel_octave, key_sig);

    if compare_absolute_pitches {
        assert_eq!(
            chord_pitches, arpeggio_pitches,
            "{context}: chord={chord:?}, arpeggio={arpeggio:?}"
        );
    } else {
        let pitch_classes = |pitches: &BTreeSet<(i32, i32)>| {
            pitches
                .iter()
                .map(|&(pitch_class, _octave)| pitch_class)
                .collect::<BTreeSet<_>>()
        };
        assert_eq!(
            pitch_classes(&chord_pitches),
            pitch_classes(&arpeggio_pitches),
            "{context}: chord={chord:?}, arpeggio={arpeggio:?}"
        );
    }
}

fn render_oracle_named_arpeggio(
    root: char,
    root_accidental: Option<RootAccidental>,
    def: &ChordDef,
    key_sig: OracleKeySig,
    stacked: bool,
) -> String {
    const LETTERS: [char; 7] = ['c', 'd', 'e', 'f', 'g', 'a', 'b'];
    let root_index = LETTERS.iter().position(|letter| *letter == root).unwrap();
    let root_accidental_value = match root_accidental {
        Some(RootAccidental::Sharp) => 1,
        Some(RootAccidental::Flat) => -1,
        Some(RootAccidental::Natural) => 0,
        None => key_sig.accidental(root),
    };
    let root_natural = chord_natural_semitones(root).unwrap();
    let root_pitch = 4 * 12 + root_natural + root_accidental_value;
    let mut previous_pitch = root_pitch;
    let notes = def
        .letter_steps
        .iter()
        .zip(def.intervals.iter())
        .enumerate()
        .map(|(index, (&step, &interval))| {
            if index == 0 {
                return ResolvedNote {
                    letter: root,
                    accidental: root_accidental_value,
                    octave: 4,
                    pitch: root_pitch,
                };
            }

            let letter_position = root_index + step as usize;
            let letter = LETTERS[letter_position % LETTERS.len()];
            let natural = chord_natural_semitones(letter).unwrap();
            let mut accidental = root_natural + root_accidental_value + interval - natural;
            if accidental > 6 {
                accidental -= 12;
            }
            if accidental < -6 {
                accidental += 12;
            }
            let mut pitch = root_pitch + interval;
            if stacked {
                while pitch < previous_pitch {
                    pitch += 12;
                }
            }
            let octave = (pitch - natural - accidental).div_euclid(12);
            previous_pitch = pitch;
            ResolvedNote {
                letter,
                accidental,
                octave,
                pitch,
            }
        })
        .collect::<Vec<_>>();

    render_arpeggio_body(
        &notes,
        &(0..notes.len()).collect::<Vec<_>>(),
        4,
        &key_sig.production(),
    )
    .unwrap()
}



#[test]
fn renders_plain_ascending_named_chords() {
    assert_eq!(
        render_chord_arpeggio('c', None, &named(""), &no_key(), 4).as_deref(),
        Some("ceg")
    );
    assert_eq!(
        render_chord_arpeggio('f', None, &named(""), &no_key(), 4).as_deref(),
        Some("fa>c<")
    );
    assert_eq!(
        render_chord_arpeggio('c', None, &named("m"), &no_key(), 4).as_deref(),
        Some("ce-g")
    );
    assert_eq!(
        render_chord_arpeggio('f', None, &named("M7"), &no_key(), 4).as_deref(),
        Some("fa>ce<")
    );
}

#[test]
fn omits_accidental_already_supplied_by_key_signature() {
    let key = KeySig::new().with('e', -1);
    assert_eq!(
        render_chord_arpeggio('c', None, &named("m"), &key, 4).as_deref(),
        Some("ceg")
    );
}

#[test]
fn renders_every_pattern_with_threaded_octaves() {
    let notes = resolve_chord_notes('f', None, &named(""), &no_key(), 4).unwrap();
    let render = |pattern: ArpeggioPattern| {
        render_arpeggio_body(&notes, &pattern.indices(3), 4, &no_key())
    };
    assert_eq!(render(ArpeggioPattern::Up).as_deref(), Some("fa>c<"));
    assert_eq!(render(ArpeggioPattern::Down).as_deref(), Some(">c<af"));
    assert_eq!(render(ArpeggioPattern::UpDown).as_deref(), Some("fa>c<a"));
    assert_eq!(render(ArpeggioPattern::DownUp).as_deref(), Some(">c<afa"));
    assert_eq!(
        render(ArpeggioPattern::Alberti).as_deref(),
        Some("f>c<a>c<")
    );
}

#[test]
fn alberti_four_note_extension_uses_every_tone() {
    assert_eq!(ArpeggioPattern::Alberti.indices(4), vec![0, 3, 1, 2]);
    assert_eq!(
        render_chord_arpeggio_with_pattern(
            'c',
            None,
            &named("M7"),
            &no_key(),
            4,
            ArpeggioPattern::Alberti,
        )
        .as_deref(),
        Some("cbeg")
    );
}

#[test]
fn renders_generic_patterned_arpeggios() {
    assert_eq!(
        render_generic_arpeggio('f', None, 3, &no_key(), 4, ArpeggioPattern::Up).as_deref(),
        Some("fa>c<")
    );
    assert_eq!(
        render_generic_arpeggio('c', None, 4, &no_key(), 4, ArpeggioPattern::Alberti)
            .as_deref(),
        Some("cbeg")
    );
    let key = KeySig::new().with('e', -1);
    assert_eq!(
        render_generic_arpeggio('c', None, 3, &key, 4, ArpeggioPattern::Up).as_deref(),
        Some("ceg")
    );
}

#[test]
fn respells_named_chords_that_require_double_accidentals() {
    // B-sharp major resolves to B-sharp, D-double-sharp, F-double-sharp.
    assert_eq!(
        render_chord_arpeggio('b', Some(RootAccidental::Sharp), &named(""), &no_key(), 4,)
            .as_deref(),
        Some("b+>eg<")
    );

    // C-flat minor resolves to C-flat, E-double-flat, G-flat; diminished
    // resolves to C-flat, E-double-flat, G-double-flat.
    assert_eq!(
        render_chord_arpeggio('c', Some(RootAccidental::Flat), &named("m"), &no_key(), 4,)
            .as_deref(),
        Some("c-dg-")
    );
    assert_eq!(
        render_chord_arpeggio('c', Some(RootAccidental::Flat), &named("dim"), &no_key(), 4,)
            .as_deref(),
        Some("c-df")
    );

    let e_sharp_key = KeySig::new().with('e', 1);
    assert_eq!(
        render_chord_arpeggio('b', Some(RootAccidental::Sharp), &named(""), &e_sharp_key, 4,)
            .as_deref(),
        Some("b+>e=g<")
    );
}

#[test]
fn all_arpeggio_bodies_are_octave_neutral() {
    let roots = [
        ('c', None, "c"),
        ('a', None, "a"),
        ('g', None, "g"),
        ('b', Some(RootAccidental::Sharp), "b+"),
        ('e', Some(RootAccidental::Flat), "e-"),
    ];
    let displacement = |body: &str| {
        body.bytes().fold(0i32, |net, byte| match byte {
            b'>' => net + 1,
            b'<' => net - 1,
            _ => net,
        })
    };
    let mut bodies = 0usize;

    for pattern in patterns() {
        for &(root, root_accidental, root_name) in &roots {
            for def in all_defs().iter() {
                let body = render_chord_arpeggio_with_pattern(
                    root,
                    root_accidental,
                    def,
                    &no_key(),
                    4,
                    pattern,
                )
                .unwrap();
                assert_eq!(
                    displacement(&body),
                    0,
                    "named {root_name}{} {} body {body:?}",
                    def.suffix,
                    pattern.name(),
                );
                bodies += 1;
            }

            for size in [3, 4] {
                let body =
                    render_generic_arpeggio(root, root_accidental, size, &no_key(), 4, pattern)
                        .unwrap();
                assert_eq!(
                    displacement(&body),
                    0,
                    "generic {size}-note {root_name} {} body {body:?}",
                    pattern.name(),
                );
                bodies += 1;
            }
        }
    }

    assert_eq!(bodies, 450);
}

#[test]
fn rendered_chord_and_arpeggio_pitch_sets_match_across_every_renderer() {
    const LETTERS: [char; 7] = ['c', 'd', 'e', 'f', 'g', 'a', 'b'];
    let roots = [
        ('b', Some(RootAccidental::Sharp), "b+"),
        ('c', None, "c"),
        ('e', Some(RootAccidental::Flat), "e-"),
        ('g', Some(RootAccidental::Sharp), "g+"),
        ('e', Some(RootAccidental::Sharp), "e+"),
        ('c', Some(RootAccidental::Flat), "c-"),
        ('f', Some(RootAccidental::Flat), "f-"),
    ];
    let key_sigs = [
        OracleKeySig::Unsigned,
        OracleKeySig::SharpSide,
        OracleKeySig::FlatSide,
    ];
    let modes = [(false, "plain"), (true, "stacked")];
    let mut comparisons = 0usize;

    for &oracle_key_sig in &key_sigs {
        let key_sig = oracle_key_sig.production();
        for &(root, root_accidental, root_name) in &roots {
            for def in all_defs().iter() {
                for &(stacked, mode_name) in &modes {
                    let arpeggio = render_oracle_named_arpeggio(
                        root,
                        root_accidental,
                        def,
                        oracle_key_sig,
                        stacked,
                    );
                    let chord = if stacked {
                        render_stacked_chord(
                            root,
                            root_accidental,
                            def,
                            &key_sig,
                            &vec![4; def.intervals.len()],
                            false,
                        )
                    } else {
                        render_chord(root, root_accidental, def, &key_sig)
                    }
                    .unwrap();
                    assert_rendered_sets_match(
                        &chord,
                        &arpeggio,
                        4,
                        oracle_key_sig,
                        stacked,
                        &format!(
                            "named {mode_name} {root_name}{} under {oracle_key_sig:?}",
                            def.suffix
                        ),
                    );
                    comparisons += 1;
                }
            }

            for &(size, size_number) in
                &[(ChordSize::Triad, 3usize), (ChordSize::Seventh, 4usize)]
            {
                let arpeggio = render_generic_arpeggio(
                    root,
                    root_accidental,
                    size_number,
                    &key_sig,
                    4,
                    ArpeggioPattern::Up,
                )
                .unwrap();
                for &(stacked, mode_name) in &modes {
                    let chord = if stacked {
                        render_stacked_generic_chord(
                            root,
                            root_accidental,
                            size,
                            &key_sig,
                            &vec![4; size_number],
                            false,
                        )
                    } else {
                        render_generic_chord(root, root_accidental, size)
                    }
                    .unwrap();
                    assert_rendered_sets_match(
                        &chord,
                        &arpeggio,
                        4,
                        oracle_key_sig,
                        stacked,
                        &format!(
                            "generic {mode_name} {root_name}/{size_number} under {oracle_key_sig:?}"
                        ),
                    );
                    comparisons += 1;
                }
            }

            let root_index = LETTERS.iter().position(|letter| *letter == root).unwrap();
            let root_accidental_value = match root_accidental {
                Some(RootAccidental::Sharp) => 1,
                Some(RootAccidental::Flat) => -1,
                Some(RootAccidental::Natural) => 0,
                None => oracle_key_sig.accidental(root),
            };
            let root_pitch =
                4 * 12 + chord_natural_semitones(root).unwrap() + root_accidental_value;

            for dyad in DYADS {
                let upper_position = root_index + dyad.step as usize;
                let upper_letter = LETTERS[upper_position % LETTERS.len()];
                let upper_accidental = oracle_key_sig.accidental(upper_letter);

                for &(stacked, mode_name) in &modes {
                    let upper_natural = chord_natural_semitones(upper_letter).unwrap();
                    let mut upper_octave = if stacked {
                        (root_pitch - upper_natural).div_euclid(12)
                    } else {
                        4 + (upper_position / LETTERS.len()) as i32
                    };
                    let mut upper_pitch = upper_octave * 12 + upper_natural + upper_accidental;
                    if stacked {
                        while upper_pitch < root_pitch {
                            upper_octave += 1;
                            upper_pitch += 12;
                        }
                    }
                    let notes = [
                        ResolvedNote {
                            letter: root,
                            accidental: root_accidental_value,
                            octave: 4,
                            pitch: root_pitch,
                        },
                        ResolvedNote {
                            letter: upper_letter,
                            accidental: upper_accidental,
                            octave: upper_octave,
                            pitch: upper_pitch,
                        },
                    ];
                    let arpeggio = render_arpeggio_body(&notes, &[0, 1], 4, &key_sig).unwrap();
                    let chord = if stacked {
                        render_stacked_generic_diatonic_dyad(
                            root,
                            root_accidental,
                            dyad.step,
                            &key_sig,
                            &[4, 4],
                            false,
                        )
                    } else {
                        render_generic_diatonic_dyad(root, root_accidental, dyad.step)
                    }
                    .unwrap();
                    assert_rendered_sets_match(
                        &chord,
                        &arpeggio,
                        4,
                        oracle_key_sig,
                        stacked,
                        &format!(
                            "dyad {mode_name} {root_name}{} under {oracle_key_sig:?}",
                            dyad.name
                        ),
                    );
                    comparisons += 1;
                }
            }
        }
    }

    assert_eq!(comparisons, 1_008);
}

#[test]
fn render_parse_repattern_round_trip() {
    let inserted = render_chord_arpeggio('f', None, &named(""), &no_key(), 4).unwrap();
    let parsed = parse_note_sequence(&inserted, 4, &no_key()).unwrap();
    assert_eq!(
        render_arpeggio_body(
            &parsed,
            &ArpeggioPattern::Alberti.indices(parsed.len()),
            4,
            &no_key(),
        )
        .as_deref(),
        Some("f>c<a>c<")
    );
}

#[test]
fn spell_tone_moves_double_accidentals_to_neighbouring_letters() {
    assert_eq!(spell_tone('d', 2, 5), Some(SpelledTone { letter: 'e', accidental: 0, octave: 5 }));
    assert_eq!(spell_tone('e', 2, 5), Some(SpelledTone { letter: 'f', accidental: 1, octave: 5 }));
    assert_eq!(spell_tone('b', 2, 4), Some(SpelledTone { letter: 'c', accidental: 1, octave: 5 }));
    assert_eq!(spell_tone('c', -2, 4), Some(SpelledTone { letter: 'b', accidental: -1, octave: 3 }));
    assert_eq!(spell_tone('f', 3, 5), Some(SpelledTone { letter: 'g', accidental: 1, octave: 5 }));
    assert_eq!(spell_tone('g', -1, 4), Some(SpelledTone { letter: 'g', accidental: -1, octave: 4 }));
    assert_eq!(spell_tone('x', 0, 4), None);
}

#[test]
fn render_mml_note_moves_octave_and_marks_accidentals() {
    let note = ResolvedNote { letter: 'e', accidental: -1, octave: 5, pitch: 63 };
    assert_eq!(render_mml_note(note, 4, &no_key()), Some((">e-".to_string(), 5)));
    let key = KeySig::new().with('e', -1);
    assert_eq!(render_mml_note(note, 6, &key), Some(("<e".to_string(), 5)));
    let natural = ResolvedNote { letter: 'e', accidental: 0, octave: 5, pitch: 64 };
    assert_eq!(render_mml_note(natural, 5, &key), Some(("e=".to_string(), 5)));
    let bad = ResolvedNote { letter: 'x', accidental: 0, octave: 5, pitch: 60 };
    assert_eq!(render_mml_note(bad, 5, &key), None);
}

#[test]
fn arpeggio_body_skips_indices_past_the_notes_and_closes_the_octave() {
    let notes = resolve_chord_notes('a', None, &named(""), &no_key(), 4).unwrap();
    assert_eq!(
        render_arpeggio_body(&notes, &[0, 7, 2, 1], 4, &no_key()).as_deref(),
        Some("a>ec+<")
    );
    assert_eq!(render_arpeggio_body(&notes, &[], 4, &no_key()).as_deref(), Some(""));
}

#[test]
fn patterns_needing_more_tones_than_the_chord_has_render_nothing() {
    let dyad = ChordDef {
        suffix: "5",
        letter_steps: vec![0, 4],
        intervals: vec![0, 7],
        detail: "Power chord",
    };
    assert_eq!(
        render_chord_arpeggio_with_pattern('c', None, &dyad, &no_key(), 4, ArpeggioPattern::Alberti),
        None
    );
    assert_eq!(
        render_chord_arpeggio_with_pattern('c', None, &dyad, &no_key(), 4, ArpeggioPattern::Down).as_deref(),
        Some("gc")
    );
    assert_eq!(render_generic_arpeggio('c', None, 5, &no_key(), 4, ArpeggioPattern::Up), None);
    assert_eq!(render_generic_arpeggio('x', None, 3, &no_key(), 4, ArpeggioPattern::Up), None);
}

#[test]
fn generic_arpeggio_text_does_not_depend_on_the_starting_octave() {
    let ks = KeySig::new();
    for pattern in patterns() {
        for size in [3usize, 4] {
            let low = render_generic_arpeggio('e', None, size, &ks, 2, pattern);
            let high = render_generic_arpeggio('e', None, size, &ks, 6, pattern);
            assert_eq!(low, high);
        }
    }
}
