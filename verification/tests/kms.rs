use fourttyswipe::kms::{
    framebuffer_depth, Buffer, FlipEvent, FlipStep, Kms, KmsError, PresentStep, SetupEvent, SetupStep,
    Wait, FLIP_NANOS,
};
use fourttyswipe::snapshot::{pack_rows, PixFmt, Snapshot};

fn buffer(fb: u32, len: usize, pitch: usize) -> Buffer {
    Buffer { fb, len, pitch }
}

fn ready(len: usize, pitch: usize) -> Kms {
    let mut kms = Kms::setup(3, vec![8, 9], (2, 2));
    kms.setup_next(SetupEvent::Mapped(Some(buffer(100, len, pitch))));
    kms.setup_next(SetupEvent::Mapped(Some(buffer(101, len, pitch))));
    kms
}

#[test]
fn framebuffers_match_the_image_format() {
    assert_eq!(framebuffer_depth(PixFmt::Xrgb8888), (24, 32));
    assert_eq!(framebuffer_depth(PixFmt::Rgb565), (16, 16));
}

#[test]
fn a_setup_makes_two_buffers() {
    let mut kms = Kms::setup(3, vec![8, 9], (1920, 1080));
    assert_eq!((kms.crtc, kms.width, kms.height, kms.back), (3, 1920, 1080, 0));
    for (n, last) in [(100u32, SetupStep::CreateDumb), (101, SetupStep::Ready)] {
        assert_eq!(kms.setup_next(SetupEvent::DumbCreated(true)), SetupStep::AddFramebuffer);
        assert_eq!(kms.setup_next(SetupEvent::FramebufferAdded(true)), SetupStep::MapDumb);
        assert_eq!(kms.setup_next(SetupEvent::Mapped(Some(buffer(n, 8, 4)))), last);
    }
    assert_eq!(kms.bufs, vec![buffer(100, 8, 4), buffer(101, 8, 4)]);
    assert_eq!(kms.conns, vec![8, 9]);
}

#[test]
fn a_setup_cleans_up_what_it_cannot_use() {
    let mut kms = Kms::setup(3, vec![], (1, 1));
    assert_eq!(kms.setup_next(SetupEvent::DumbCreated(false)), SetupStep::Fail);
    assert_eq!(kms.setup_next(SetupEvent::FramebufferAdded(false)), SetupStep::DestroyDumb);
    assert_eq!(kms.setup_next(SetupEvent::DumbDestroyed), SetupStep::Fail);
    assert_eq!(kms.setup_next(SetupEvent::Mapped(None)), SetupStep::Fail);
    assert!(kms.bufs.is_empty());
}

#[test]
fn our_own_framebuffers_are_recognised() {
    let kms = ready(8, 4);
    assert!(kms.is_showing_ours(Some(100)));
    assert!(kms.is_showing_ours(Some(101)));
    assert!(!kms.is_showing_ours(Some(7)));
    assert!(!kms.is_showing_ours(None));
}

#[test]
fn buffers_alternate_once_shown() {
    let mut kms = ready(8, 4);
    assert_eq!(kms.back_buffer(), buffer(100, 8, 4));
    assert_eq!(kms.present(true), PresentStep::Shown);
    assert_eq!(kms.back_buffer().fb, 101);
    assert_eq!(kms.present(false), PresentStep::SetCrtc(101));
    assert_eq!(kms.back_buffer().fb, 101);
    assert!(!kms.present_set(false));
    assert_eq!(kms.back_buffer().fb, 101);
    assert!(kms.present_set(true));
    assert_eq!(kms.back_buffer().fb, 100);
}

#[test]
fn an_image_is_drawn_row_by_row() {
    let kms = ready(12, 6);
    let img = Snapshot { width: 2, height: 2, fmt: PixFmt::Rgb565, data: vec![1, 2, 3, 4, 5, 6, 7, 8] };
    let mut mem = vec![99u8; 12];
    kms.draw_snapshot(&mut mem, &img);
    assert_eq!(mem, vec![1, 2, 3, 4, 99, 99, 5, 6, 7, 8, 99, 99]);
    assert_eq!(pack_rows(&mem, 0, 6, 4, 2), img.data);
}

#[test]
fn overlapping_rows_show_the_later_one() {
    let kms = ready(6, 1);
    let img = Snapshot { width: 1, height: 2, fmt: PixFmt::Rgb565, data: vec![1, 2, 3, 4] };
    let mut mem = vec![0u8; 6];
    kms.draw_snapshot(&mut mem, &img);
    assert_eq!(mem, vec![1, 3, 4, 0, 0, 0]);
    let none = Snapshot { width: 1, height: 0, fmt: PixFmt::Rgb565, data: vec![] };
    kms.draw_snapshot(&mut mem, &none);
    assert_eq!(mem, vec![1, 3, 4, 0, 0, 0]);
}

#[test]
fn waiting_for_the_display_ends_with_it_or_with_the_time() {
    assert_eq!(Kms::acquire_master(true, true), Wait::Over(true));
    assert_eq!(Kms::acquire_master(true, false), Wait::Over(true));
    assert_eq!(Kms::acquire_master(false, true), Wait::Over(false));
    assert_eq!(Kms::acquire_master(false, false), Wait::Sleep(1));
    let kms = ready(8, 4);
    assert_eq!(kms.wait_released(Some(5), false), Wait::Over(true));
    assert_eq!(kms.wait_released(None, true), Wait::Over(true));
    assert_eq!(kms.wait_released(Some(100), true), Wait::Over(false));
    assert_eq!(kms.wait_released(Some(100), false), Wait::Sleep(2));
}

#[test]
fn a_page_flip_is_waited_for() {
    assert_eq!(Kms::wait_flip(&FlipEvent::Clock(0)), FlipStep::TimedOut);
    assert_eq!(Kms::wait_flip(&FlipEvent::Clock(1)), FlipStep::Poll(0));
    assert_eq!(Kms::wait_flip(&FlipEvent::Clock(FLIP_NANOS)), FlipStep::Poll(200));
    assert_eq!(Kms::wait_flip(&FlipEvent::Clock(5_999_999)), FlipStep::Poll(5));
    assert_eq!(Kms::wait_flip(&FlipEvent::Polled(-1)), FlipStep::OsError);
    assert_eq!(Kms::wait_flip(&FlipEvent::Polled(0)), FlipStep::Retry);
    assert_eq!(Kms::wait_flip(&FlipEvent::Polled(1)), FlipStep::Receive);
    assert_eq!(Kms::wait_flip(&FlipEvent::Received(vec![])), FlipStep::Retry);
    assert_eq!(Kms::wait_flip(&FlipEvent::Received(vec![false, false])), FlipStep::Retry);
    assert_eq!(Kms::wait_flip(&FlipEvent::Received(vec![false, true])), FlipStep::Flipped);
    assert_eq!(Kms::wait_flip(&FlipEvent::ReadFailed), FlipStep::ReadError);
}

/// Feeds events to a wait until it is over. Returns how it ended and how many
/// events it took.
fn wait(events: &[FlipEvent]) -> (FlipStep, usize) {
    for (i, event) in events.iter().enumerate() {
        let step = Kms::wait_flip(event);
        if !matches!(step, FlipStep::Poll(_) | FlipStep::Retry | FlipStep::Receive) {
            return (step, i + 1);
        }
    }
    (FlipStep::Retry, events.len())
}

#[test]
fn the_first_event_that_ends_a_wait_decides_it() {
    let clock = |left: u64| FlipEvent::Clock(left);
    let batch = |flips: &[bool]| FlipEvent::Received(flips.to_vec());
    let ready = || FlipEvent::Polled(1);
    assert_eq!(
        wait(&[clock(9), ready(), batch(&[false]), clock(8), ready(), batch(&[true]), clock(0)]),
        (FlipStep::Flipped, 6)
    );
    assert_eq!(
        wait(&[clock(9), FlipEvent::Polled(0), clock(0), batch(&[true])]),
        (FlipStep::TimedOut, 3)
    );
    assert_eq!(wait(&[clock(9), FlipEvent::Polled(-1), clock(0)]), (FlipStep::OsError, 2));
    assert_eq!(
        wait(&[clock(9), ready(), FlipEvent::ReadFailed, batch(&[true])]),
        (FlipStep::ReadError, 3)
    );
}

#[test]
fn display_errors_have_texts() {
    assert_eq!(KmsError::NoActiveCrtc.message(), "no active CRTC");
    assert_eq!(KmsError::NoCard.message(), "no DRM card with an active display");
    assert_eq!(KmsError::FlipTimedOut.message(), "page flip timed out");
}

#[test]
fn only_images_that_fill_the_display_fit() {
    let kms = ready(8, 4);
    let image = |width: u32, height: u32| Snapshot {
        width,
        height,
        fmt: PixFmt::Rgb565,
        data: vec![0xff; (2 * width * height) as usize],
    };
    let fitted = kms.fit(&image(2, 2), PixFmt::Xrgb8888).unwrap();
    assert_eq!((fitted.width, fitted.height, fitted.fmt), (2, 2, PixFmt::Xrgb8888));
    assert_eq!(fitted.data, [0xff, 0xff, 0xff, 0].repeat(4));
    assert!(kms.fit(&image(3, 2), PixFmt::Rgb565).is_none());
    assert!(kms.fit(&image(2, 1), PixFmt::Rgb565).is_none());
}
