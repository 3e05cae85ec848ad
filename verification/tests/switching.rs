use fourttyswipe::switching::SwitchStep::{
    Activate, BorrowConsole, CaptureEntered, CaptureLeft, Done, DropDisplay, GetPicture, OpenDisplay,
    Request, ReturnConsole, ShowLeft, Slide, TakeDisplay, WaitActive, WaitReleased,
};
use fourttyswipe::switching::{Display, Switch, SwitchStep, Target};
use fourttyswipe::transition::{plan, Incoming, Outgoing, VtKind};

type Pictures = Option<(Outgoing, Incoming)>;

/// Runs a switch in which the given steps fail. Returns the steps taken and
/// the switch in the end.
fn run(pictures: Pictures, failing: &[SwitchStep]) -> (Vec<SwitchStep>, Switch) {
    let mut s = Switch::start(pictures);
    let mut steps = Vec::new();
    while s.step != Done {
        steps.push(s.step);
        s.next(!failing.contains(&s.step));
        assert!(steps.len() <= 14);
    }
    (steps, s)
}

fn steps(from: VtKind, to: VtKind, failing: &[SwitchStep]) -> Vec<SwitchStep> {
    run(plan(from, to), failing).0
}

#[test]
fn consoles_slide_into_each_other() {
    assert_eq!(
        steps(VtKind::Text, VtKind::Text, &[]),
        vec![
            CaptureLeft, OpenDisplay, TakeDisplay, ShowLeft, Activate, CaptureEntered, Slide,
            BorrowConsole, DropDisplay, ReturnConsole,
        ]
    );
}

#[test]
fn a_slide_to_an_x_server_comes_before_the_switch() {
    assert_eq!(
        steps(VtKind::Text, VtKind::X, &[]),
        vec![
            CaptureLeft, GetPicture, OpenDisplay, TakeDisplay, ShowLeft, Slide, DropDisplay, Activate,
            WaitReleased,
        ]
    );
}

#[test]
fn an_x_server_lets_go_of_the_display_first() {
    assert_eq!(
        steps(VtKind::X, VtKind::Text, &[]),
        vec![
            CaptureLeft, GetPicture, OpenDisplay, Request, TakeDisplay, ShowLeft, WaitActive, Slide,
            BorrowConsole, DropDisplay, ReturnConsole,
        ]
    );
    assert_eq!(
        steps(VtKind::X, VtKind::Text, &[GetPicture]),
        vec![
            CaptureLeft, GetPicture, OpenDisplay, Request, TakeDisplay, ShowLeft, WaitActive,
            CaptureEntered, Slide, BorrowConsole, DropDisplay, ReturnConsole,
        ]
    );
}

#[test]
fn switches_without_pictures_are_instant() {
    assert_eq!(steps(VtKind::X, VtKind::X, &[]), vec![Activate]);
    assert_eq!(steps(VtKind::Other, VtKind::Text, &[]), vec![Activate]);
    assert_eq!(steps(VtKind::Text, VtKind::X, &[GetPicture]), vec![CaptureLeft, GetPicture, Activate]);
    assert_eq!(steps(VtKind::Text, VtKind::Text, &[OpenDisplay]), vec![CaptureLeft, OpenDisplay, Activate]);
}

#[test]
fn a_display_that_was_taken_is_given_back_after_a_failure() {
    assert_eq!(
        steps(VtKind::Text, VtKind::Text, &[ShowLeft]),
        vec![
            CaptureLeft, OpenDisplay, TakeDisplay, ShowLeft, Activate, BorrowConsole, DropDisplay,
            ReturnConsole,
        ]
    );
    assert_eq!(
        steps(VtKind::Text, VtKind::Text, &[Activate]),
        vec![CaptureLeft, OpenDisplay, TakeDisplay, ShowLeft, Activate, DropDisplay]
    );
    assert_eq!(
        steps(VtKind::Text, VtKind::X, &[Slide, Activate]),
        vec![
            CaptureLeft, GetPicture, OpenDisplay, TakeDisplay, ShowLeft, Slide, DropDisplay, Activate,
        ]
    );
    assert_eq!(
        steps(VtKind::X, VtKind::Text, &[TakeDisplay]),
        vec![CaptureLeft, GetPicture, OpenDisplay, Request, TakeDisplay, Activate]
    );
    assert_eq!(
        steps(VtKind::X, VtKind::Text, &[WaitActive]),
        vec![
            CaptureLeft, GetPicture, OpenDisplay, Request, TakeDisplay, ShowLeft, WaitActive, Activate,
            BorrowConsole, DropDisplay, ReturnConsole,
        ]
    );
}

const ALL: [SwitchStep; 14] = [
    CaptureLeft, GetPicture, OpenDisplay, Request, TakeDisplay, ShowLeft, WaitActive, Activate,
    CaptureEntered, Slide, BorrowConsole, DropDisplay, ReturnConsole, WaitReleased,
];

#[test]
fn whatever_fails_the_switch_is_made_and_everything_given_back() {
    for kinds in [(VtKind::Text, VtKind::Text), (VtKind::Text, VtKind::X), (VtKind::X, VtKind::Text), (VtKind::X, VtKind::X)] {
        for mask in 0..1u32 << ALL.len() {
            let failing: Vec<SwitchStep> =
                (0..ALL.len()).filter(|i| mask & (1 << i) != 0).map(|i| ALL[i]).collect();
            let (taken, end) = run(plan(kinds.0, kinds.1), &failing);
            assert_ne!(end.target, Target::Pending);
            assert_ne!(end.display, Display::Held);
            assert!(taken.contains(&Activate) || taken.contains(&WaitActive));
            assert_eq!(taken.contains(&BorrowConsole), taken.contains(&ReturnConsole));
            if let Some(at) = taken.iter().position(|s| *s == CaptureEntered) {
                assert!(taken[..at].contains(&ShowLeft));
            }
        }
    }
}
