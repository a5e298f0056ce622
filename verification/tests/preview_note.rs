use ctrmml_lang_core::preview_note::{preview_note_at, PreviewNoteHit};

trait HasTrackOk {
    fn has_track_ok(&self) -> bool;
}

impl HasTrackOk for PreviewNoteHit {
    fn has_track_ok(&self) -> bool {
        self.midi > 0 || self.midi == 0
    }
}


#[test]
fn typed_note_resolves_midi_against_default_octave() {
    // `A o5 c` — cursor right after the `c`. Default-ish context (no
    // explicit tempo/quantize). c at o5 → midi 48.
    let text = "A o5 c";
    let hit = preview_note_at(text, 0, 5, 'c').unwrap();
    assert_eq!(hit.midi, 48);
    assert!(hit.has_track_ok());
}

#[test]
fn typed_note_with_key_signature() {
    let text = "A _{+f} o5 f";
    let hit = preview_note_at(text, 0, 11, 'f').unwrap();
    // Sharp f at o5 → 53 + 1 = 54.
    assert_eq!(hit.midi, 54);
}

#[test]
fn explicit_sharp_overrides_key_signature() {
    // Key signature says f-flat, but the user types `f-` explicitly
    // and then `+` afterwards — the `+` overrides to natural+1 (sharp).
    // Use a clearer fixture: key sig is empty, type `c+` → midi must be
    // c#, not c.
    let text = "A o5 c+";
    let hit = preview_note_at(text, 0, 6, '+').unwrap();
    assert_eq!(hit.midi, 49);
    // Pulse covers both `c` and `+`.
    assert_eq!(hit.pulse_start, 5);
    assert_eq!(hit.pulse_end, 7);
}

#[test]
fn returns_none_without_enclosing_track() {
    let text = "; just a comment line\nc";
    assert!(preview_note_at(text, 1, 0, 'c').is_none());
}

#[test]
fn returns_none_inside_comment() {
    let text = "A o5 ; c here\n";
    assert!(preview_note_at(text, 0, 7, 'c').is_none());
}

#[test]
fn returns_none_inside_key_sig() {
    let text = "A _{+f}";
    // Cursor on the `f` inside `_{...}`.
    assert!(preview_note_at(text, 0, 5, 'f').is_none());
}

#[test]
fn picks_up_tempo_and_quantize() {
    let text = "A t140 Q6 l8 v10 o5 c";
    let hit = preview_note_at(text, 0, 20, 'c').unwrap();
    assert_eq!(hit.tempo, 140);
    assert_eq!(hit.length, 8);
    assert_eq!(hit.quantize, 6);
    assert_eq!(hit.volume, 10);
}

#[test]
fn detects_noise_mode_from_platform_command() {
    let text = "J 'mode 1' c";
    let hit = preview_note_at(text, 0, 11, 'c').unwrap();
    assert_eq!(hit.noise_mode, 1);
}

#[test]
fn ignores_uppercase_note_letters() {
    // Uppercase `C` is the whole-note-length command, not a note.
    let text = "A o5 C";
    assert!(preview_note_at(text, 0, 5, 'C').is_none());
}

#[test]
fn standalone_accidental_is_ignored() {
    // `+` on its own line — no preceding note letter to attach to.
    let text = "A +";
    assert!(preview_note_at(text, 0, 2, '+').is_none());
}

#[test]
fn preview_reads_the_channel_octave_inside_a_chord_branch() {
    // Two-channel track: the second branch raises its octave.
    let text = "AB o4 {c/>e";
    let hit = preview_note_at(text, 0, 10, 'e').unwrap();
    // e at o5 -> (5 - 1) * 12 + 4.
    assert_eq!(hit.midi, 52);
}

#[test]
fn preview_params_come_from_earlier_lines_of_the_track() {
    let text = "A t90 l16\n  v20 Q12 c";
    let hit = preview_note_at(text, 1, 10, 'c').unwrap();
    assert_eq!(hit.tempo, 90);
    assert_eq!(hit.length, 16);
    assert_eq!(hit.quantize, 8);
    assert_eq!(hit.volume, 15);
    assert_eq!(hit.noise_mode, 0);
    assert_eq!(hit.midi, 60);
}

#[test]
fn preview_defaults_and_noise_modes() {
    let hit = preview_note_at("A c", 0, 2, 'c').unwrap();
    assert_eq!(
        hit,
        PreviewNoteHit {
            midi: 60,
            pulse_start: 2,
            pulse_end: 3,
            tempo: 120,
            length: 4,
            quantize: 8,
            volume: 15,
            noise_mode: 0,
        }
    );
    assert_eq!(preview_note_at("J 'mode 2' 'mode 1' 'mode 2' c", 0, 29, 'c').unwrap().noise_mode, 2);
    assert_eq!(preview_note_at("J 'mode 7' c", 0, 11, 'c').unwrap().noise_mode, 0);
}

#[test]
fn preview_h_is_b_and_flat_accidental_after_note() {
    let hit = preview_note_at("A o5 h", 0, 5, 'h').unwrap();
    assert_eq!(hit.midi, 59);
    let hit = preview_note_at("A o5 d-", 0, 6, '-').unwrap();
    assert_eq!(hit.midi, 49);
    assert_eq!((hit.pulse_start, hit.pulse_end), (5, 7));
    assert!(preview_note_at("A o5 x", 0, 5, 'x').is_none());
}

#[test]
fn preview_midi_is_clamped() {
    assert_eq!(preview_note_at("A o0 c", 0, 5, 'c').unwrap().midi, 0);
    assert_eq!(preview_note_at("A o20 c", 0, 6, 'c').unwrap().midi, 127);
}
