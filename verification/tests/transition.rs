use fourttyswipe::fb::{FbBitfield, FbFixScreeninfo, FbVarScreeninfo, Info};
use fourttyswipe::gesture::SwipeDirection;
use fourttyswipe::snapshot::{PixFmt, Snapshot};
use fourttyswipe::transition::VtKind::{Other, Text, X};
use fourttyswipe::transition::{
    can_slide, capture_outgoing, entered, geometry_of, plan, slide_frame, slide_in, slide_next, slide_offset, vt_kind, Entered,
    Geometry, Incoming, Outgoing, SlideStep, DURATION_NANOS,
};

const TIGHT: Geometry = Geometry { width: 3, height: 2, bits_per_pixel: 8, line_length: 3 };
const OUT: [u8; 6] = [1, 2, 3, 4, 5, 6];
const IN: [u8; 6] = [11, 12, 13, 14, 15, 16];

const ALL: [SwipeDirection; 4] =
    [SwipeDirection::Left, SwipeDirection::Right, SwipeDirection::Up, SwipeDirection::Down];

#[test]
fn a_left_slide_brings_the_new_screen_in_from_the_right() {
    let f = |off: usize| slide_frame(&TIGHT, &OUT, &IN, SwipeDirection::Left, off);
    assert_eq!(f(0), vec![1, 2, 3, 4, 5, 6]);
    assert_eq!(f(1), vec![2, 3, 11, 5, 6, 14]);
    assert_eq!(f(2), vec![3, 11, 12, 6, 14, 15]);
    assert_eq!(f(3), vec![11, 12, 13, 14, 15, 16]);
    assert_eq!(f(99), vec![11, 12, 13, 14, 15, 16]);
}

#[test]
fn a_right_slide_brings_the_new_screen_in_from_the_left() {
    let f = |off: usize| slide_frame(&TIGHT, &OUT, &IN, SwipeDirection::Right, off);
    assert_eq!(f(0), vec![1, 2, 3, 4, 5, 6]);
    assert_eq!(f(1), vec![13, 1, 2, 16, 4, 5]);
    assert_eq!(f(3), vec![11, 12, 13, 14, 15, 16]);
}

#[test]
fn slides_up_and_down_move_whole_rows() {
    let up = |off: usize| slide_frame(&TIGHT, &OUT, &IN, SwipeDirection::Up, off);
    assert_eq!(up(0), OUT.to_vec());
    assert_eq!(up(1), vec![4, 5, 6, 11, 12, 13]);
    assert_eq!(up(2), IN.to_vec());
    let down = |off: usize| slide_frame(&TIGHT, &OUT, &IN, SwipeDirection::Down, off);
    assert_eq!(down(0), OUT.to_vec());
    assert_eq!(down(1), vec![14, 15, 16, 1, 2, 3]);
    assert_eq!(down(9), IN.to_vec());
}

#[test]
fn padding_and_surplus_bytes_are_handled_row_by_row() {
    // Two pixels of one byte, rows of three bytes, one byte too many.
    let g = Geometry { width: 2, height: 2, bits_per_pixel: 8, line_length: 3 };
    let a = [1u8, 2, 0, 4, 5, 0, 7];
    let b = [11u8, 12, 0, 14, 15, 0, 17];
    assert_eq!(slide_frame(&g, &a, &b, SwipeDirection::Left, 1), vec![2, 11, 12, 5, 14, 15, 0]);
    assert_eq!(slide_frame(&g, &a, &b, SwipeDirection::Right, 1), vec![12, 1, 2, 15, 4, 5, 0]);
    assert_eq!(slide_frame(&g, &a, &b, SwipeDirection::Left, 2), vec![11, 12, 0, 14, 15, 0, 0]);
}

#[test]
fn padding_never_shows_as_pixels() {
    // One pixel of one byte in rows of two bytes; 99 and 98 are padding.
    let g = Geometry { width: 1, height: 2, bits_per_pixel: 8, line_length: 2 };
    let (a, b) = ([1u8, 99, 2, 99], [11u8, 98, 12, 98]);
    for d in [SwipeDirection::Left, SwipeDirection::Right] {
        let first = slide_frame(&g, &a, &b, d, 0);
        assert_eq!((first[0], first[2]), (1, 2));
        let last = slide_frame(&g, &a, &b, d, 1);
        assert_eq!((last[0], last[2]), (11, 12));
    }
}

#[test]
fn padded_slides_run_in_reverse_too() {
    let g = Geometry { width: 2, height: 2, bits_per_pixel: 8, line_length: 3 };
    let (a, b) = ([1u8, 2, 3, 4, 5, 6], [11u8, 12, 13, 14, 15, 16]);
    for off in 0..=2usize {
        assert_eq!(
            slide_frame(&g, &a, &b, SwipeDirection::Left, off),
            slide_frame(&g, &b, &a, SwipeDirection::Right, 2 - off)
        );
    }
}

#[test]
fn rows_shorter_than_their_pixels_are_shown_as_far_as_they_go() {
    let g = Geometry { width: 4, height: 1, bits_per_pixel: 8, line_length: 3 };
    let f = slide_frame(&g, &[1, 2, 3], &[11, 12, 13], SwipeDirection::Right, 2);
    assert_eq!(f, vec![12, 13, 1]);
}

#[test]
fn pixels_of_several_bytes_move_together() {
    let g = Geometry { width: 2, height: 1, bits_per_pixel: 16, line_length: 4 };
    let f = slide_frame(&g, &[1, 2, 3, 4], &[5, 6, 7, 8], SwipeDirection::Left, 1);
    assert_eq!(f, vec![3, 4, 5, 6]);
    // Fewer than eight bits count as one byte.
    let g = Geometry { width: 2, height: 1, bits_per_pixel: 4, line_length: 2 };
    assert_eq!(slide_frame(&g, &[1, 2], &[3, 4], SwipeDirection::Left, 1), vec![2, 3]);
}

#[test]
fn a_slide_back_is_the_same_slide_reversed() {
    for off in 0..=3usize {
        assert_eq!(
            slide_frame(&TIGHT, &OUT, &IN, SwipeDirection::Left, off),
            slide_frame(&TIGHT, &IN, &OUT, SwipeDirection::Right, 3 - off)
        );
    }
    for off in 0..=2usize {
        assert_eq!(
            slide_frame(&TIGHT, &OUT, &IN, SwipeDirection::Up, off),
            slide_frame(&TIGHT, &IN, &OUT, SwipeDirection::Down, 2 - off)
        );
    }
}

#[test]
fn each_frame_row_is_a_window_onto_both_rows() {
    let both = [1u8, 2, 3, 11, 12, 13];
    for off in 0..=3usize {
        let f = slide_frame(&TIGHT, &OUT, &IN, SwipeDirection::Left, off);
        assert_eq!(&f[..3], &both[off..off + 3]);
    }
    let stacked = [1u8, 2, 3, 4, 5, 6, 11, 12, 13, 14, 15, 16];
    for off in 0..=2usize {
        let f = slide_frame(&TIGHT, &OUT, &IN, SwipeDirection::Up, off);
        assert_eq!(&f[..], &stacked[3 * off..3 * off + 6]);
    }
}

#[test]
fn captures_that_do_not_fit_are_skipped() {
    let skipped = |g: &Geometry, a: &[u8], b: &[u8]| {
        matches!(slide_in(g, a, b, SwipeDirection::Left, 0, 0), SlideStep::Skip) && !can_slide(g, a, b)
    };
    assert!(skipped(&TIGHT, &OUT, &IN[..5]));
    assert!(skipped(&TIGHT, &OUT[..5], &IN[..5]));
    assert!(skipped(&Geometry { width: 0, ..TIGHT }, &OUT, &IN));
    assert!(skipped(&Geometry { line_length: 0, ..TIGHT }, &OUT, &IN));
    assert!(can_slide(&TIGHT, &OUT, &IN));
}

#[test]
fn a_slide_ends_when_its_time_is_up() {
    for d in ALL {
        assert!(matches!(slide_in(&TIGHT, &OUT, &IN, d, DURATION_NANOS, 0), SlideStep::Finished));
        match slide_in(&TIGHT, &OUT, &IN, d, DURATION_NANOS - 1, 1) {
            SlideStep::Frame(f) => assert_eq!(f, slide_frame(&TIGHT, &OUT, &IN, d, 1)),
            _ => panic!("no frame"),
        }
    }
    assert_eq!(DURATION_NANOS, 260_000_000);
}

/// Runs a slide with the given turns: elapsed time, offset, and whether it can be
/// shown. Returns the pictures that were to be shown.
fn run(turns: &[(u128, usize, bool)]) -> Vec<Vec<u8>> {
    let mut asked = Vec::new();
    for (elapsed, offset, shown) in turns {
        let step = slide_in(&TIGHT, &OUT, &IN, SwipeDirection::Left, *elapsed, *offset);
        match &step {
            SlideStep::Skip => {}
            SlideStep::Frame(f) => asked.push(f.clone()),
            SlideStep::Finished => asked.push(IN.to_vec()),
        }
        if !slide_next(&step, *shown) {
            break;
        }
    }
    asked
}

#[test]
fn a_slide_never_moves_back() {
    let mut moved = 0usize;
    let mut offsets = Vec::new();
    for eased in [0usize, 1, 0, 2, 1, 9] {
        moved = slide_offset(&TIGHT, SwipeDirection::Left, moved, eased);
        offsets.push(moved);
    }
    assert_eq!(offsets, vec![0, 1, 1, 2, 2, 3]);
    assert_eq!(slide_offset(&TIGHT, SwipeDirection::Down, 0, 9), 2);
    for eased in 0..6usize {
        assert_eq!(slide_offset(&TIGHT, SwipeDirection::Right, 0, eased), eased.min(3));
    }
}

#[test]
fn a_slide_ends_once_with_the_incoming_screen() {
    let frame = |off: usize| slide_frame(&TIGHT, &OUT, &IN, SwipeDirection::Left, off);
    let late = DURATION_NANOS + 5;
    assert_eq!(
        run(&[(0, 0, true), (9, 1, true), (10, 2, true), (late, 3, true), (late, 3, true)]),
        vec![frame(0), frame(1), frame(2), IN.to_vec()]
    );
    assert_eq!(run(&[(late, 0, true), (late, 0, true)]), vec![IN.to_vec()]);
}

#[test]
fn a_slide_stops_at_the_first_frame_that_fails() {
    let frame = |off: usize| slide_frame(&TIGHT, &OUT, &IN, SwipeDirection::Left, off);
    assert_eq!(
        run(&[(0, 0, true), (9, 1, false), (10, 2, true), (DURATION_NANOS, 3, true)]),
        vec![frame(0), frame(1)]
    );
    assert!(!slide_next(&SlideStep::Skip, true));
    assert!(!slide_next(&SlideStep::Finished, true));
    assert!(!slide_next(&SlideStep::Frame(vec![]), false));
    assert!(slide_next(&SlideStep::Frame(vec![]), true));
}

#[test]
fn switches_are_animated_as_documented() {
    assert_eq!(plan(Text, Text), Some((Outgoing::Console, Incoming::ConsoleAfterSwitch)));
    assert_eq!(plan(Text, X), Some((Outgoing::Console, Incoming::XServerOrLast)));
    assert_eq!(plan(X, Text), Some((Outgoing::XServer, Incoming::LastConsole)));
    assert_eq!(plan(X, X), None);
    for k in [Text, X, Other] {
        assert_eq!(plan(k, Other), None);
        assert_eq!(plan(Other, k), None);
    }
    assert_eq!(vt_kind(false, false), Text);
    assert_eq!(vt_kind(false, true), Text);
    assert_eq!(vt_kind(true, true), X);
    assert_eq!(vt_kind(true, false), Other);
}

fn shot(tag: u8) -> Snapshot {
    Snapshot { width: 1, height: 1, fmt: PixFmt::Rgb565, data: vec![tag, tag] }
}

fn tag(e: Entered) -> Option<u8> {
    match e {
        Entered::Picture(s) => Some(s.data[0]),
        Entered::AfterSwitch => Some(0),
        Entered::Nothing => None,
    }
}

#[test]
fn the_entered_screen_is_live_or_the_last_one() {
    let x = Incoming::XServerOrLast;
    assert_eq!(tag(entered(x, Some(shot(1)), Some(shot(2)))), Some(1));
    assert_eq!(tag(entered(x, None, Some(shot(2)))), Some(2));
    assert_eq!(tag(entered(x, None, None)), None);
    let last = Incoming::LastConsole;
    assert_eq!(tag(entered(last, None, Some(shot(2)))), Some(2));
    assert_eq!(tag(entered(last, None, None)), Some(0));
    assert_eq!(tag(entered(Incoming::ConsoleAfterSwitch, None, Some(shot(2)))), Some(0));
}

#[test]
fn an_outgoing_console_is_captured_with_its_shape() {
    let bit = |offset: u32| FbBitfield { offset, length: 0, msb_right: 0 };
    let var = FbVarScreeninfo {
        xres: 1,
        yres: 2,
        xoffset: 0,
        yoffset: 0,
        bits_per_pixel: 16,
        red: bit(11),
        green: bit(5),
        blue: bit(0),
    };
    let info = Info { var, fix: FbFixScreeninfo { smem_len: 6, line_length: 4 } };
    let (g, data) = capture_outgoing(&info, &[1, 2, 3, 4, 5, 6]).unwrap();
    assert_eq!(g, Geometry { width: 1, height: 2, bits_per_pixel: 16, line_length: 2 });
    assert_eq!(data, vec![1, 2, 5, 6]);
    let odd = Info { var: FbVarScreeninfo { bits_per_pixel: 24, ..var }, ..info };
    assert!(capture_outgoing(&odd, &[0; 6]).is_none());
    let long = Info { var: FbVarScreeninfo { yres: 3, ..var }, ..info };
    assert!(capture_outgoing(&long, &[0; 6]).is_none());
    let s = Snapshot { width: 1, height: 2, fmt: PixFmt::Rgb565, data };
    assert_eq!(geometry_of(&s), g);
}
