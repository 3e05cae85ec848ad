use fourttyswipe::snapshot::{pack_rows, PixFmt, Snapshot};

fn image(width: u32, height: u32, fmt: PixFmt, data: Vec<u8>) -> Snapshot {
    Snapshot { width, height, fmt, data }
}

#[test]
fn a_format_knows_its_pixel_size() {
    assert_eq!(PixFmt::Xrgb8888.bytes_per_pixel(), 4);
    assert_eq!(PixFmt::Rgb565.bytes_per_pixel(), 2);
}

#[test]
fn rows_are_cut_at_the_row_size() {
    let s = image(2, 2, PixFmt::Rgb565, vec![1, 2, 3, 4, 5, 6, 7, 8]);
    assert_eq!(s.row_bytes(), 4);
    assert_eq!(s.row(0), &[1, 2, 3, 4]);
    assert_eq!(s.row(1), &[5, 6, 7, 8]);
    assert_eq!(image(3, 0, PixFmt::Xrgb8888, vec![]).row_bytes(), 12);
}

#[test]
fn only_every_61st_byte_decides_whether_an_image_is_blank() {
    assert!(image(0, 0, PixFmt::Rgb565, vec![]).is_blank());
    let mut data = vec![0u8; 200];
    assert!(image(1, 1, PixFmt::Rgb565, data.clone()).is_blank());
    data[1] = 9;
    data[60] = 9;
    data[62] = 9;
    assert!(image(1, 1, PixFmt::Rgb565, data.clone()).is_blank());
    for sampled in [0usize, 61, 122, 183] {
        let mut lit = data.clone();
        lit[sampled] = 1;
        assert!(!image(1, 1, PixFmt::Rgb565, lit).is_blank());
    }
    assert!(!image(1, 1, PixFmt::Rgb565, vec![1]).is_blank());
    let mut edge = vec![0u8; 62];
    edge[61] = 1;
    assert!(!image(1, 1, PixFmt::Rgb565, edge).is_blank());
}

#[test]
fn narrowing_keeps_the_high_bits() {
    let red = image(1, 1, PixFmt::Xrgb8888, vec![0, 0, 0xff, 0x77]).to_fmt(PixFmt::Rgb565);
    assert_eq!(red.data, vec![0x00, 0xf8]);
    let green = image(1, 1, PixFmt::Xrgb8888, vec![0, 0xff, 0, 0]).to_fmt(PixFmt::Rgb565);
    assert_eq!(green.data, vec![0xe0, 0x07]);
    let blue = image(1, 1, PixFmt::Xrgb8888, vec![0xff, 0, 0, 0]).to_fmt(PixFmt::Rgb565);
    assert_eq!(blue.data, vec![0x1f, 0x00]);
    let mixed = image(1, 1, PixFmt::Xrgb8888, vec![0x2b, 0x5d, 0x93, 0]).to_fmt(PixFmt::Rgb565);
    // red 0x12, green 0x17, blue 0x05
    assert_eq!(mixed.data, vec![0xe5, 0x92]);
    assert_eq!(mixed.fmt, PixFmt::Rgb565);
    assert_eq!((mixed.width, mixed.height), (1, 1));
}

#[test]
fn widening_repeats_the_high_bits() {
    let white = image(1, 1, PixFmt::Rgb565, vec![0xff, 0xff]).to_fmt(PixFmt::Xrgb8888);
    assert_eq!(white.data, vec![0xff, 0xff, 0xff, 0]);
    let mixed = image(1, 1, PixFmt::Rgb565, vec![0xe5, 0x92]).to_fmt(PixFmt::Xrgb8888);
    assert_eq!(mixed.data, vec![0x29, 0x5d, 0x94, 0]);
}

#[test]
fn converting_to_the_same_format_copies() {
    let s = image(1, 1, PixFmt::Xrgb8888, vec![1, 2, 3, 4]);
    assert_eq!(s.to_fmt(PixFmt::Xrgb8888).data, vec![1, 2, 3, 4]);
    assert_eq!(s.clone().data, vec![1, 2, 3, 4]);
}

#[test]
fn bytes_past_the_last_whole_pixel_are_dropped() {
    let s = image(1, 1, PixFmt::Xrgb8888, vec![0, 0, 0, 0, 1, 2, 3]);
    assert_eq!(s.to_fmt(PixFmt::Rgb565).data.len(), 2);
    let s = image(1, 1, PixFmt::Rgb565, vec![0, 0, 9]);
    assert_eq!(s.to_fmt(PixFmt::Xrgb8888).data.len(), 4);
}

#[test]
fn every_16_bit_pixel_survives_widening() {
    let mut data = Vec::new();
    for v in 0..=u16::MAX {
        data.extend_from_slice(&v.to_le_bytes());
    }
    let s = image(256, 256, PixFmt::Rgb565, data.clone());
    assert_eq!(s.to_fmt(PixFmt::Xrgb8888).to_fmt(PixFmt::Rgb565).data, data);
}

#[test]
fn narrowing_and_widening_stays_close() {
    let mut data = Vec::new();
    for v in 0..=255u8 {
        data.extend_from_slice(&[v, v, v, 0]);
    }
    let s = image(256, 1, PixFmt::Xrgb8888, data.clone());
    let back = s.to_fmt(PixFmt::Rgb565).to_fmt(PixFmt::Xrgb8888).data;
    for p in 0..256usize {
        assert!((back[4 * p] as i32 - data[4 * p] as i32).abs() < 8);
        assert!((back[4 * p + 1] as i32 - data[4 * p + 1] as i32).abs() < 4);
        assert!((back[4 * p + 2] as i32 - data[4 * p + 2] as i32).abs() < 8);
    }
}

#[test]
fn black_stays_blank_in_both_formats() {
    let wide = image(40, 4, PixFmt::Xrgb8888, vec![0; 640]);
    assert!(wide.is_blank());
    assert!(wide.to_fmt(PixFmt::Rgb565).is_blank());
    let narrow = image(40, 4, PixFmt::Rgb565, vec![0; 320]);
    assert!(narrow.to_fmt(PixFmt::Xrgb8888).is_blank());
}

#[test]
fn rows_are_packed_from_origin_and_pitch() {
    let mem: Vec<u8> = (0..20).collect();
    assert_eq!(pack_rows(&mem, 3, 5, 2, 3), vec![3, 4, 8, 9, 13, 14]);
    assert_eq!(pack_rows(&mem, 99, 5, 2, 0), Vec::<u8>::new());
    assert_eq!(pack_rows(&mem, 16, 0, 4, 1), vec![16, 17, 18, 19]);
    assert_eq!(pack_rows(&mem, 1, 1, 2, 2), vec![1, 2, 2, 3]);
}
