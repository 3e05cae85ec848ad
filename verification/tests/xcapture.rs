use fourttyswipe::snapshot::{PixFmt, Snapshot};
use fourttyswipe::xcapture::{
    capture, grab, image_layout, is_padded, GrabStep, XFormat, XScreen, XSetup, TIMEOUT_MILLIS,
};

fn setup(width: u16, height: u16, depth: u8, bpp: u8, pad: u8) -> XSetup {
    XSetup {
        roots: vec![XScreen { root: 42, width_in_pixels: width, height_in_pixels: height, root_depth: depth }],
        pixmap_formats: vec![
            XFormat { depth: 1, bits_per_pixel: 1, scanline_pad: 32 },
            XFormat { depth, bits_per_pixel: bpp, scanline_pad: pad },
            XFormat { depth, bits_per_pixel: 8, scanline_pad: 8 },
        ],
        lsb_first: true,
    }
}

#[test]
fn rows_are_rounded_up_to_the_pad() {
    let l = image_layout(&setup(3, 5, 16, 16, 32)).unwrap();
    assert_eq!((l.root, l.width, l.height, l.fmt, l.stride, l.size), (42, 3, 5, PixFmt::Rgb565, 8, 40));
    let l = image_layout(&setup(3, 5, 24, 32, 32)).unwrap();
    assert_eq!((l.fmt, l.stride, l.size), (PixFmt::Xrgb8888, 12, 60));
    let l = image_layout(&setup(u16::MAX, u16::MAX, 32, 32, 64)).unwrap();
    assert_eq!((l.stride, l.size), (262144, 262144 * 65535));
    assert_eq!(image_layout(&setup(0, 5, 16, 16, 32)).unwrap().size, 0);
}

#[test]
fn unknown_layouts_are_refused() {
    assert!(image_layout(&setup(1, 1, 24, 24, 32)).is_none());
    assert!(image_layout(&setup(1, 1, 16, 32, 32)).is_none());
    assert!(image_layout(&setup(1, 1, 15, 16, 32)).is_none());
    assert!(image_layout(&setup(1, 1, 8, 8, 32)).is_none());
    let mut s = setup(1, 1, 24, 32, 32);
    s.lsb_first = false;
    assert!(image_layout(&s).is_none());
    let mut s = setup(1, 1, 24, 32, 32);
    s.roots.clear();
    assert!(image_layout(&s).is_none());
    let mut s = setup(1, 1, 24, 32, 32);
    s.pixmap_formats.clear();
    assert!(image_layout(&s).is_none());
}

#[test]
fn a_missing_pad_is_noticed_where_it_matters() {
    assert!(is_padded(&setup(1, 1, 24, 32, 32)));
    assert!(!is_padded(&setup(1, 1, 24, 32, 0)));
    assert!(is_padded(&setup(1, 1, 24, 24, 0)));
}

#[test]
fn a_picture_loses_its_padding() {
    let s = setup(3, 2, 16, 16, 32);
    let raw: Vec<u8> = (0..17).collect();
    let image = grab(&s, &raw).unwrap();
    assert_eq!((image.width, image.height, image.fmt), (3, 2, PixFmt::Rgb565));
    assert_eq!(image.data, vec![0, 1, 2, 3, 4, 5, 8, 9, 10, 11, 12, 13]);
    assert!(grab(&s, &raw[..15]).is_none());
    assert!(grab(&setup(3, 2, 24, 24, 32), &raw).is_none());
}

#[test]
fn blank_pictures_are_of_no_use() {
    let image = |b: u8| Snapshot { width: 1, height: 1, fmt: PixFmt::Rgb565, data: vec![b, 0] };
    assert!(capture(None).is_none());
    assert!(capture(Some(image(0))).is_none());
    assert_eq!(capture(Some(image(5))).unwrap().data, vec![5, 0]);
    assert_eq!(TIMEOUT_MILLIS, 1500);
}

/// Runs a grab in which the steps with the given numbers fail. Returns the
/// steps taken.
fn run(failing: &[usize]) -> Vec<GrabStep> {
    let mut steps = vec![GrabStep::QueryVersion];
    while !matches!(steps[steps.len() - 1], GrabStep::Done | GrabStep::Fail) {
        let n = steps.len() - 1;
        steps.push(steps[n].next(!failing.contains(&n)));
    }
    steps
}

#[test]
fn a_picture_is_fetched_through_shared_memory() {
    assert_eq!(
        run(&[]),
        vec![
            GrabStep::QueryVersion,
            GrabStep::CreateMemfd,
            GrabStep::Truncate,
            GrabStep::GenerateId,
            GrabStep::CloneFd,
            GrabStep::Attach,
            GrabStep::GetImage,
            GrabStep::MapMemory,
            GrabStep::Detach(true),
            GrabStep::Done,
        ]
    );
}

#[test]
fn the_socket_stands_in_for_shared_memory() {
    for n in 0..=5usize {
        let steps = run(&[n]);
        assert_eq!(&steps[n + 1..], &[GrabStep::SocketImage, GrabStep::Done]);
    }
    assert_eq!(run(&[0, 1]), vec![GrabStep::QueryVersion, GrabStep::SocketImage, GrabStep::Fail]);
}

#[test]
fn an_attached_segment_is_always_detached() {
    for n in [6usize, 7] {
        let steps = run(&[n]);
        assert_eq!(&steps[n + 1..], &[GrabStep::Detach(false), GrabStep::SocketImage, GrabStep::Done]);
    }
    let steps = run(&[6, 8, 7]);
    assert_eq!(&steps[7..], &[GrabStep::Detach(false), GrabStep::SocketImage, GrabStep::Fail]);
    assert!(run(&[7, 9]).len() <= 11);
}
