use fourttyswipe::gesture::{react, Gesture, Reaction, SwipeDirection, FINGERS};

fn gesture(finger_count: u32, direction: SwipeDirection) -> Option<Gesture> {
    Some(Gesture { finger_count, direction })
}

#[test]
fn four_fingers_to_the_side_switch() {
    assert_eq!(FINGERS, 4);
    assert_eq!(react(gesture(4, SwipeDirection::Left)), Reaction::Switch(SwipeDirection::Left));
    assert_eq!(react(gesture(4, SwipeDirection::Right)), Reaction::Switch(SwipeDirection::Right));
}

#[test]
fn four_fingers_up_or_down_are_discarded() {
    assert_eq!(react(gesture(4, SwipeDirection::Up)), Reaction::Discard);
    assert_eq!(react(gesture(4, SwipeDirection::Down)), Reaction::Discard);
}

#[test]
fn other_events_are_ignored() {
    assert_eq!(react(None), Reaction::Ignore);
    assert_eq!(react(gesture(3, SwipeDirection::Left)), Reaction::Ignore);
    assert_eq!(react(gesture(5, SwipeDirection::Right)), Reaction::Ignore);
}
