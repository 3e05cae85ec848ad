use fourttyswipe::kms::KmsError;
use fourttyswipe::outputs::{card_path, CardError, CardSearch, OutputSearch};

#[test]
fn eight_cards_are_looked_at() {
    let mut s: CardSearch<&str> = CardSearch::new();
    for n in 0..8u32 {
        assert_eq!(s.card(), Some(n));
        s.unopened();
    }
    assert_eq!(s.card(), None);
    assert_eq!(s.chosen, None);
    assert_eq!(s.finish::<u8>(None), Err(CardError::NoCard));
    assert_eq!(card_path(3), "/dev/dri/card3");
}

#[test]
fn the_last_error_of_an_opened_card_is_reported() {
    let mut s: CardSearch<&str> = CardSearch::new();
    s.unopened();
    s.failed("first");
    s.failed("second");
    for _ in 3..8 {
        s.unopened();
    }
    assert_eq!(s.card(), None);
    assert_eq!(s.finish::<u8>(None), Err(CardError::Card("second")));
}

#[test]
fn the_first_card_that_serves_ends_the_search() {
    for set_up in [Ok(7u8), Err("setup")] {
        let mut s: CardSearch<&str> = CardSearch::new();
        s.unopened();
        s.failed("dark");
        assert_eq!(s.card(), Some(2));
        s.serves();
        assert_eq!(s.card(), None);
        assert_eq!((s.chosen, s.next), (Some(2), 3));
        assert_eq!(s.finish(Some(set_up)), set_up.map_err(CardError::Card));
    }
    let mut s: CardSearch<&str> = CardSearch::new();
    for _ in 0..7 {
        s.unopened();
    }
    s.serves();
    assert_eq!((s.card(), s.chosen), (None, Some(7)));
}

/// One connector: connected, encoder, CRTC, mode, framebuffer.
type Conn = (bool, Option<u32>, Option<u32>, Option<&'static str>, Option<u32>);

fn search(conns: &[Conn]) -> Result<(u32, Vec<u32>, &'static str), KmsError> {
    let mut s = OutputSearch::new();
    for (i, (connected, encoder, crtc, mode, fb)) in conns.iter().enumerate() {
        let id = i as u32 + 1;
        if s.on_connector(*connected, *encoder).is_none() {
            continue;
        }
        if let Some(c) = s.on_encoder(id, *crtc) {
            s.on_crtc(id, c, *mode, *fb);
        }
    }
    s.finish()
}

#[test]
fn the_first_output_that_shows_something_is_found() {
    let dark: Conn = (true, Some(1), Some(50), Some("dark"), None);
    let lit: Conn = (true, Some(2), Some(51), Some("lit"), Some(9));
    let same: Conn = (true, Some(3), Some(51), None, None);
    let other: Conn = (true, Some(4), Some(52), Some("other"), Some(9));
    assert_eq!(search(&[dark, lit, other, same]), Ok((51, vec![2, 4], "lit")));
    assert_eq!(search(&[same, lit]), Ok((51, vec![2], "lit")));
}

#[test]
fn outputs_that_show_nothing_are_passed_over() {
    let lit: Conn = (true, Some(2), Some(51), Some("lit"), Some(9));
    let unplugged: Conn = (false, Some(2), Some(51), Some("lit"), Some(9));
    let no_encoder: Conn = (true, None, Some(51), Some("lit"), Some(9));
    let no_crtc: Conn = (true, Some(2), None, Some("lit"), Some(9));
    let no_mode: Conn = (true, Some(2), Some(51), None, Some(9));
    for dark in [unplugged, no_encoder, no_crtc, no_mode] {
        assert_eq!(search(&[dark]), Err(KmsError::NoActiveCrtc));
        assert_eq!(search(&[dark, lit]), Ok((51, vec![2], "lit")));
    }
    assert_eq!(search(&[]), Err(KmsError::NoActiveCrtc));
    assert_eq!(search(&[lit, unplugged, no_mode]), Ok((51, vec![1, 3], "lit")));
}
