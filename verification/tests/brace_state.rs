use ctrmml_lang_core::brace_state::BraceState;

#[test]
fn fresh_state_is_outside_brace() {
    let s = BraceState::new(3, 4);
    assert_eq!(s.brace_depth(), 0);
    assert_eq!(s.active_channel(), None);
    assert_eq!(s.current_octave(), 4);
    assert_eq!(s.channel_octave(), &[4, 4, 4]);
}

#[test]
fn open_brace_makes_branch_zero_active() {
    let mut s = BraceState::new(3, 4);
    s.on_open_brace(b' ');
    assert_eq!(s.active_channel(), Some(0));
    assert_eq!(s.brace_depth(), 1);
}

#[test]
fn open_brace_after_underscore_is_noop() {
    let mut s = BraceState::new(3, 4);
    s.on_open_brace(b'_');
    assert_eq!(s.brace_depth(), 0);
    assert_eq!(s.active_channel(), None);
}

#[test]
fn slash_advances_branch() {
    let mut s = BraceState::new(3, 4);
    s.on_open_brace(b' ');
    let snap = s.on_slash();
    assert_eq!(snap, Some((0, 4)));
    assert_eq!(s.active_channel(), Some(1));
}

#[test]
fn close_brace_returns_to_outside() {
    let mut s = BraceState::new(3, 4);
    s.on_open_brace(b' ');
    s.on_close_brace();
    assert_eq!(s.brace_depth(), 0);
    assert_eq!(s.active_channel(), None);
}

#[test]
fn octave_shift_outside_brace_affects_all_channels() {
    let mut s = BraceState::new(3, 4);
    s.on_octave_shift(1);
    assert_eq!(s.channel_octave(), &[5, 5, 5]);
    assert_eq!(s.shared_octave(), 5);
}

#[test]
fn octave_shift_inside_branch_is_channel_local() {
    let mut s = BraceState::new(3, 4);
    s.on_open_brace(b' ');
    s.on_slash();
    s.on_octave_shift(1);
    assert_eq!(s.channel_octave(), &[4, 5, 4]);
}

#[test]
fn slash_past_num_channels_does_not_advance_cur_channel() {
    let mut s = BraceState::new(2, 4);
    s.on_open_brace(b' ');
    s.on_slash();
    s.on_slash();
    assert_eq!(s.active_channel(), Some(1));
}

#[test]
fn single_channel_brace_has_no_active_channel() {
    let mut s = BraceState::new(1, 4);
    s.on_open_brace(b' ');
    assert_eq!(s.active_channel(), None);
    s.on_octave_shift(1);
    assert_eq!(s.shared_octave(), 5);
    assert_eq!(s.channel_octave(), &[5]);
}

#[test]
fn a_single_channel_never_has_an_active_branch() {
    let mut s = BraceState::new(1, 4);
    s.on_open_brace(b' ');
    assert_eq!(s.active_channel(), None);
    s.on_slash();
    assert_eq!(s.active_channel(), None);
    s.on_octave_shift(1);
    assert_eq!(s.current_octave(), 5);
    assert_eq!(s.channel_octave(), &[5]);
    let mut t = BraceState::new(3, 4);
    t.on_open_brace(b' ');
    assert_eq!(t.active_channel(), Some(0));
    t.on_slash();
    assert_eq!(t.active_channel(), Some(1));
    t.on_close_brace();
    assert_eq!(t.active_channel(), None);
}
