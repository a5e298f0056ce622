use ctrmml_lang_core::string_model::LinesModel;
use ctrmml_lang_core::transpose::{transpose_selection, Direction, Selection};


/// Apply `transpose_selection` to every occurrence of `[...]` in
/// `input` in turn, returning the resulting text. The brackets mark
/// the selection; they are stripped before the edit is applied.
/// Mirrors the TS test helper `apply`.
fn apply(input: &str, direction: Direction) -> String {
    let start = input.find('[').expect("selection [ required");
    let end = input.find(']').expect("selection ] required");
    let stripped: String = {
        let mut s = String::with_capacity(input.len() - 2);
        s.push_str(&input[..start]);
        s.push_str(&input[start + 1..end]);
        s.push_str(&input[end + 1..]);
        s
    };
    let model = LinesModel(stripped.split('\n').map(String::from).collect());

    let pre_start = &stripped[..start];
    let pre_end = &stripped[..end - 1];
    let line_of = |s: &str| -> u32 { s.split('\n').count() as u32 };
    let col_of = |s: &str| -> u32 {
        let i = s.rfind('\n');
        (if let Some(p) = i {
            s.len() - p - 1
        } else {
            s.len()
        } as u32)
            + 1
    };
    let sel = Selection {
        start_line_number: line_of(pre_start),
        start_column: col_of(pre_start),
        end_line_number: line_of(pre_end),
        end_column: col_of(pre_end),
    };

    let edit = match transpose_selection(&model, sel, direction) {
        Some(e) => e,
        None => return stripped,
    };

    let lines: Vec<&str> = stripped.split('\n').collect();
    let mut before = String::new();
    for (idx, line) in lines
        .iter()
        .take((edit.start_line_number - 1) as usize)
        .enumerate()
    {
        if idx > 0 {
            before.push('\n');
        }
        before.push_str(line);
    }
    let head_line = lines[(edit.start_line_number - 1) as usize];
    if edit.start_line_number > 1 {
        before.push('\n');
    }
    before.push_str(&head_line[..(edit.start_column - 1) as usize]);

    let tail_line = lines[(edit.end_line_number - 1) as usize];
    let mut after = String::new();
    after.push_str(&tail_line[(edit.end_column - 1) as usize..]);
    for line in lines.iter().skip(edit.end_line_number as usize) {
        after.push('\n');
        after.push_str(line);
    }

    let mut out = before;
    out.push_str(&edit.text);
    out.push_str(&after);
    out
}

// ---------- basic semitone shifts ----------------------------------------

#[test]
fn c_up_to_c_sharp() {
    assert_eq!(apply("A o4 [c] d", Direction::Up), "A o4 c+ d");
}

#[test]
fn c_down_crosses_octave() {
    assert_eq!(apply("A o4 [c] d", Direction::Down), "A o4 <b> d");
}

#[test]
fn consecutive_notes_all_shift() {
    assert_eq!(
        apply("A o4 [c c c] d", Direction::Up),
        "A o4 c+ c+ c+ d"
    );
}

// ---------- octave-cross compensation ------------------------------------

#[test]
fn b_up_crosses_octave_compensates() {
    assert_eq!(apply("A o4 [b] d", Direction::Up), "A o4 >c< d");
}

#[test]
fn b_sharp_up_inside_braces() {
    assert_eq!(
        apply("A o4 {[b+]} {c}", Direction::Up),
        "A o4 {>c+<} {c}"
    );
}

#[test]
fn selection_with_embedded_gt_restored_as_suffix() {
    assert_eq!(
        apply("A o4 {[b>]} {c}", Direction::Down),
        "A o4 {b->} {c}"
    );
}

#[test]
fn per_branch_compensation_in_multi_channel_chord() {
    assert_eq!(
        apply(
            "ABC o4 l8 {e/g/b} [{g/b/>d<}] {f/a/>c}",
            Direction::Up
        ),
        "ABC o4 l8 {e/g/b} {g+/>c</>d+<} {f/a/>c}"
    );
}

#[test]
fn non_crossing_shift_no_compensation() {
    assert_eq!(
        apply("A o4 [c d e] f", Direction::Up),
        "A o4 c+ d+ f f"
    );
}

// ---------- keyword guards -----------------------------------------------

#[test]
fn r_after_note_does_not_block_preceding() {
    assert_eq!(apply("A o4 [er] c", Direction::Up), "A o4 fr c");
}

#[test]
fn l_after_note_does_not_block_preceding() {
    assert_eq!(apply("A o4 [el4] c", Direction::Up), "A o4 fl4 c");
}

#[test]
fn note_after_r_is_transposed() {
    assert_eq!(apply("A o4 [rc] d", Direction::Up), "A o4 rc+ d");
}

#[test]
fn three_letters_independently() {
    assert_eq!(apply("A o4 [erf] c", Direction::Up), "A o4 frf+ c");
}

#[test]
fn fm_keyword_f_is_not_a_note() {
    assert_eq!(apply("[@1 fm]\nA c", Direction::Up), "@1 fm\nA c");
}

#[test]
fn psg_keyword_g_is_not_a_note() {
    assert_eq!(apply("A o4 [psg] d", Direction::Up), "A o4 psg d");
}

#[test]
fn pcm_keyword_c_is_not_a_note() {
    assert_eq!(apply("A o4 [pcm] d", Direction::Up), "A o4 pcm d");
}

// ---------- return value -------------------------------------------------

#[test]
fn returns_none_when_no_notes_in_selection() {
    let model = LinesModel(vec!["A o4 r4 d".into()]);
    let edit = transpose_selection(
        &model,
        Selection {
            start_line_number: 1,
            start_column: 6,
            end_line_number: 1,
            end_column: 9,
        },
        Direction::Up,
    );
    assert!(edit.is_none());
}

// ---------- selection starting inside a multi-channel chord --------------

#[test]
fn three_channel_mid_chord_selection_up() {
    assert_eq!(
        apply("ABC o6 {c/e/a} {e/a/[>c<} {e/g/b} ]", Direction::Up),
        "ABC o6 {c/e/a} {e/a/>c+<} {f/g+/>c<} "
    );
}

#[test]
fn three_channel_mid_chord_selection_down() {
    assert_eq!(
        apply("ABC o6 {c/e/a} {e/a/[>c<} {e/g/b} ]", Direction::Down),
        "ABC o6 {c/e/a} {e/a/b} {e-/g-/b-} "
    );
}

#[test]
fn selection_covers_only_tail_branch() {
    assert_eq!(
        apply("ABC o6 {c/e/a} {e/a/[>c<]}", Direction::Up),
        "ABC o6 {c/e/a} {e/a/>c+<}"
    );
}

#[test]
fn selection_starts_in_middle_branch() {
    assert_eq!(
        apply("ABC o6 {c/e/a} {e/[a/>c<]}", Direction::Up),
        "ABC o6 {c/e/a} {e/a+/>c+<}"
    );
}

#[test]
fn selection_begins_at_closing_brace() {
    assert_eq!(
        apply(
            "ABC o6 {c/e/a} {e/a/>c<[} {e/g/b}]",
            Direction::Up
        ),
        "ABC o6 {c/e/a} {e/a/>c<} {f/g+/>c<}"
    );
}

#[test]
fn two_channel_mid_chord_selection() {
    assert_eq!(
        apply("AB o6 {c/e} {e/[>g<} {c/e}]", Direction::Up),
        "AB o6 {c/e} {e/>g+<} {c+/f}"
    );
}

#[test]
fn single_channel_chord_notation() {
    assert_eq!(
        apply("A o6 {c e [>g<} {c e}]", Direction::Up),
        "A o6 {c e >g+} {<c+ f}"
    );
}

// ---------- selection ending inside a multi-channel chord ----------------

#[test]
fn selection_ends_mid_chord_before_brace() {
    assert_eq!(
        apply("ABC o6 {c/e/a} [{e/g]/b}", Direction::Up),
        "ABC o6 {c/e/a} {f/g+/b}"
    );
}

#[test]
fn selection_ends_mid_tail_branch_after_gt() {
    assert_eq!(
        apply("ABC o6 {c/e/a} {e/a/[>c]<}", Direction::Up),
        "ABC o6 {c/e/a} {e/a/>c+<}"
    );
}

// ---------- octave context across multi-channel boundaries ---------------

#[test]
fn explicit_octave_before_brace_propagates() {
    assert_eq!(
        apply("ABC o3 [{c/e/g}]", Direction::Up),
        "ABC o3 {c+/f/g+}"
    );
}

#[test]
fn gt_between_chords_lifts_shared_only() {
    assert_eq!(
        apply("ABC o4 {c/e/g} > [{c/e/g}]", Direction::Up),
        "ABC o4 {c/e/g} > {c+/f/g+}"
    );
}

#[test]
fn balanced_shift_in_earlier_branch_does_not_leak() {
    assert_eq!(
        apply("ABC o4 {c/e/>g<} [{c/e/g}]", Direction::Up),
        "ABC o4 {c/e/>g<} {c+/f/g+}"
    );
}

// ---------- regression: mid-chord selection with leading `<` -------------

#[test]
fn selecting_lt_c_gt_inside_branch() {
    assert_eq!(
        apply("ABC o6 {c/e/a} {e/a/[<c>]}", Direction::Up),
        "ABC o6 {c/e/a} {e/a/<c+>}"
    );
}

#[test]
fn key_signature_spelling_is_preferred() {
    assert_eq!(apply("A _{-b} o4 [a] c", Direction::Up), "A _{-b} o4 b c");
}

#[test]
fn comment_inside_selection_is_untouched() {
    assert_eq!(apply("A o4 [c ; d]", Direction::Up), "A o4 c+ ; d");
}

#[test]
fn selection_across_lines_transposes_each_line() {
    assert_eq!(apply("A o4 [c\nd] e", Direction::Up), "A o4 c+\nd+ e");
}

#[test]
fn quoted_text_inside_selection_is_untouched() {
    assert_eq!(apply("A o4 [c \"d\" e] f", Direction::Up), "A o4 c+ \"d\" f f");
}

#[test]
fn down_uses_flat_spellings() {
    assert_eq!(apply("A o4 [d e] c", Direction::Down), "A o4 d- e- c");
}
