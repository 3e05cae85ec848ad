use fourttyswipe::history::History;
use fourttyswipe::snapshot::{PixFmt, Snapshot};

fn shot(tag: u8) -> Snapshot {
    Snapshot { width: 1, height: 1, fmt: PixFmt::Rgb565, data: vec![tag, tag] }
}

fn tag(h: &History, vt: u16) -> Option<u8> {
    h.recall(vt).map(|s| s.data[0])
}

#[test]
fn the_last_picture_of_each_terminal_is_kept() {
    let mut h = History::new();
    assert_eq!(tag(&h, 1), None);
    h.remember(1, shot(10));
    h.remember(2, shot(20));
    assert_eq!((tag(&h, 1), tag(&h, 2), tag(&h, 3)), (Some(10), Some(20), None));
    h.remember(1, shot(11));
    h.remember(3, shot(30));
    assert_eq!((tag(&h, 1), tag(&h, 2), tag(&h, 3)), (Some(11), Some(20), Some(30)));
}
