use fourttyswipe::console_mode::ModeStep::{Done, Fail, Open, RemoveMarker, SetMode, WriteMarker};
use fourttyswipe::console_mode::{
    is_graphics_mode, marker_text, restore_borrowed, set_graphics_mode, ModeStep, Restore, KD_GRAPHICS,
    KD_TEXT,
};

fn run(graphics: bool, outcomes: &[bool]) -> Vec<ModeStep> {
    let mut steps = vec![set_graphics_mode(graphics)];
    for ok in outcomes {
        steps.push(steps[steps.len() - 1].next(graphics, *ok));
    }
    steps
}

#[test]
fn every_mode_but_text_is_graphics() {
    assert!(!is_graphics_mode(KD_TEXT));
    assert!(is_graphics_mode(KD_GRAPHICS));
    assert!(is_graphics_mode(2));
    assert!(is_graphics_mode(-1));
}

#[test]
fn a_terminal_is_written_down_before_it_is_borrowed() {
    assert_eq!(run(true, &[true, true, true]), vec![WriteMarker, Open, SetMode(KD_GRAPHICS), Done]);
    assert_eq!(run(true, &[false, true, true]), vec![WriteMarker, Open, SetMode(KD_GRAPHICS), Done]);
}

#[test]
fn the_marker_goes_after_the_terminal_is_given_back() {
    assert_eq!(run(false, &[true, true, true]), vec![Open, SetMode(KD_TEXT), RemoveMarker, Done]);
    assert_eq!(run(false, &[true, true, false]), vec![Open, SetMode(KD_TEXT), RemoveMarker, Done]);
}

#[test]
fn a_failed_step_ends_the_change() {
    assert_eq!(run(true, &[true, false]), vec![WriteMarker, Open, Fail]);
    assert_eq!(run(true, &[true, true, false, true]), vec![WriteMarker, Open, SetMode(KD_GRAPHICS), Fail, Fail]);
    assert_eq!(run(false, &[false]), vec![Open, Fail]);
    assert_eq!(run(false, &[true, false]), vec![Open, SetMode(KD_TEXT), Fail]);
}

#[test]
fn a_marker_names_the_terminal_it_was_written_for() {
    for vt in [1u16, 7, 15, 63, u16::MAX] {
        let text = marker_text(vt);
        assert_eq!(text, vt.to_string());
        assert_eq!(restore_borrowed(Some(&text)), Restore { vt: Some(vt), remove: true });
    }
}

#[test]
fn markers_are_read_leniently_and_always_removed() {
    assert_eq!(restore_borrowed(None), Restore { vt: None, remove: false });
    assert_eq!(restore_borrowed(Some(" 4\n")), Restore { vt: Some(4), remove: true });
    for bad in ["", "four", "65536", "-1", "1 2"] {
        assert_eq!(restore_borrowed(Some(bad)), Restore { vt: None, remove: true });
    }
}
