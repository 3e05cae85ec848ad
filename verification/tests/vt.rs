use fourttyswipe::gesture::SwipeDirection;
use fourttyswipe::vt::{activate, swipe_targets, tty_path, ActivateStep, VtStat};

fn stat(active: u16, state: u16) -> VtStat {
    VtStat { v_active: active, v_signal: 0, v_state: state }
}

#[test]
fn allocated_terminals_are_listed_in_order() {
    assert_eq!(stat(1, 0b1000_0110).state(), (1, vec![1, 2, 7]));
    // Bit 0 is no terminal.
    assert_eq!(stat(3, 1).state(), (3, vec![]));
    assert_eq!(stat(0, u16::MAX).state(), (0, (1..16).collect::<Vec<u16>>()));
    assert_eq!(stat(9, 0).active_vt(), 9);
}

#[test]
fn targets_wrap_around() {
    let s = |active: u16| stat(active, 0b1000_0110);
    assert_eq!(s(1).targets(true), (1, 2));
    assert_eq!(s(2).targets(true), (2, 7));
    assert_eq!(s(7).targets(true), (7, 1));
    assert_eq!(s(1).targets(false), (1, 7));
    assert_eq!(s(7).targets(false), (7, 2));
}

#[test]
fn an_unallocated_terminal_lies_between_its_neighbours() {
    let s = stat(5, 0b1000_0110);
    assert_eq!(s.targets(true), (5, 7));
    assert_eq!(s.targets(false), (5, 2));
    let above = stat(20, 0b1110);
    assert_eq!(above.targets(true), (20, 1));
    assert_eq!(above.targets(false), (20, 3));
    let below = stat(0, 0b1110);
    assert_eq!(below.targets(true), (0, 1));
    assert_eq!(below.targets(false), (0, 3));
    assert_eq!(swipe_targets(&above, SwipeDirection::Left), Some((20, 1)));
    assert_eq!(swipe_targets(&s, SwipeDirection::Right), Some((5, 2)));
    assert_eq!(stat(5, 1 << 3).targets(true), (5, 3));
    assert_eq!(stat(5, 1 << 3).targets(false), (5, 3));
}

#[test]
fn targets_are_the_nearest_for_every_state() {
    for state in (0..=u16::MAX).step_by(7) {
        let all = stat(0, state).state().1;
        for active in (0..=17u16).chain([u16::MAX]) {
            let above = all.iter().copied().find(|v| *v > active);
            let below = all.iter().copied().rev().find(|v| *v < active);
            let next = above.or(all.first().copied()).unwrap_or(active);
            let previous = below.or(all.last().copied()).unwrap_or(active);
            assert_eq!(stat(active, state).targets(true), (active, next));
            assert_eq!(stat(active, state).targets(false), (active, previous));
        }
    }
}

#[test]
fn without_other_terminals_a_swipe_stays() {
    assert_eq!(stat(4, 0).targets(true), (4, 4));
    assert_eq!(stat(4, 1 << 4).targets(true), (4, 4));
    assert_eq!(stat(4, 1 << 4).targets(false), (4, 4));
    assert_eq!(swipe_targets(&stat(4, 0), SwipeDirection::Left), None);
    assert_eq!(swipe_targets(&stat(4, 1 << 4), SwipeDirection::Right), None);
}

#[test]
fn left_is_next_and_right_is_previous() {
    let s = stat(2, 0b1000_0110);
    assert_eq!(swipe_targets(&s, SwipeDirection::Left), Some((2, 7)));
    assert_eq!(swipe_targets(&s, SwipeDirection::Right), Some((2, 1)));
    assert_eq!(swipe_targets(&s, SwipeDirection::Up), None);
    assert_eq!(swipe_targets(&s, SwipeDirection::Down), None);
}

#[test]
fn there_and_back_again_for_every_state() {
    for state in 0..=u16::MAX {
        for active in (1..16u16).filter(|vt| state & (1 << vt) != 0) {
            for forward in [true, false] {
                let (_, there) = stat(active, state).targets(forward);
                assert!(state & (1 << there) != 0);
                assert_eq!(stat(there, state).targets(!forward), (there, active));
            }
        }
    }
}

#[test]
fn swiping_on_visits_every_terminal() {
    let state = 0b0101_0010_1001_0010u16;
    let all = stat(0, state).state().1;
    let mut at = 4;
    let mut seen = Vec::new();
    for _ in 0..all.len() {
        at = stat(at, state).targets(true).1;
        seen.push(at);
    }
    assert_eq!(at, 4);
    assert_eq!(seen[0], stat(at, state).targets(true).1);
    seen.sort();
    assert_eq!(seen, all);
}

#[test]
fn terminals_have_device_files() {
    assert_eq!(tty_path(3), "/dev/tty3");
    assert_eq!(tty_path(u16::MAX), "/dev/tty65535");
}

#[test]
fn a_switch_that_is_refused_is_not_waited_for() {
    assert_eq!(activate(), ActivateStep::Request);
    assert_eq!(activate().next(true), ActivateStep::WaitActive);
    assert_eq!(activate().next(false), ActivateStep::Fail);
    assert_eq!(activate().next(true).next(true), ActivateStep::Done);
    assert_eq!(activate().next(true).next(false), ActivateStep::Fail);
    assert_eq!(ActivateStep::Done.next(false), ActivateStep::Done);
    assert_eq!(ActivateStep::Fail.next(true), ActivateStep::Fail);
}
