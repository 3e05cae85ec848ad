use fourttyswipe::fb::{
    capture, pixfmt, read_area, unsupported, visible_area, FbBitfield, FbError,
    FbFixScreeninfo, FbVarScreeninfo, Info,
};
use fourttyswipe::snapshot::PixFmt;

fn bit(offset: u32) -> FbBitfield {
    FbBitfield { offset, length: 8, msb_right: 0 }
}

fn console(bits_per_pixel: u32, offsets: [u32; 3]) -> FbVarScreeninfo {
    FbVarScreeninfo {
        xres: 2,
        yres: 2,
        xoffset: 0,
        yoffset: 0,
        bits_per_pixel,
        red: bit(offsets[0]),
        green: bit(offsets[1]),
        blue: bit(offsets[2]),
    }
}

fn wide() -> FbVarScreeninfo {
    console(32, [16, 8, 0])
}

fn narrow() -> FbVarScreeninfo {
    console(16, [11, 5, 0])
}

#[test]
fn two_pixel_formats_are_understood() {
    assert_eq!(pixfmt(&wide()), Some(PixFmt::Xrgb8888));
    assert_eq!(pixfmt(&narrow()), Some(PixFmt::Rgb565));
    assert_eq!(pixfmt(&console(32, [0, 8, 16])), None);
    assert_eq!(pixfmt(&console(32, [16, 9, 0])), None);
    assert_eq!(pixfmt(&console(32, [16, 8, 1])), None);
    assert_eq!(pixfmt(&console(16, [10, 5, 0])), None);
    assert_eq!(pixfmt(&console(24, [16, 8, 0])), None);
}

#[test]
fn other_formats_are_unsupported() {
    let fix = FbFixScreeninfo { smem_len: 64, line_length: 8 };
    let odd = Info { var: console(8, [0, 0, 0]), fix };
    assert_eq!(fourttyswipe::fb::format(&odd), Err(FbError::Unsupported));
    assert_eq!(unsupported(), FbError::Unsupported);
    assert_eq!(visible_area(&odd), Err(FbError::Unsupported));
    assert_eq!(capture(&odd, &[0; 64]).err(), Some(FbError::Unsupported));
    assert_eq!(FbError::Unsupported.message(), "unsupported fbdev pixel format");
    assert_eq!(fourttyswipe::fb::format(&Info { var: wide(), fix }), Ok(PixFmt::Xrgb8888));
}

#[test]
fn the_visible_area_is_cut_out_of_the_memory() {
    let var = FbVarScreeninfo { xoffset: 1, yoffset: 1, ..narrow() };
    let info = Info { var, fix: FbFixScreeninfo { smem_len: 22, line_length: 8 } };
    let mem: Vec<u8> = (0..22).collect();
    let s = capture(&info, &mem).ok().unwrap();
    assert_eq!((s.width, s.height, s.fmt), (2, 2, PixFmt::Rgb565));
    assert_eq!(s.data, vec![10, 11, 12, 13, 18, 19, 20, 21]);
    let area = visible_area(&info).unwrap();
    assert_eq!((area.origin, area.pitch, area.len), (10, 8, 22));
    assert_eq!(read_area(&area, &mem).data, s.data);
}

#[test]
fn a_bad_geometry_is_rejected() {
    let bad = |info: Info| visible_area(&info) == Err(FbError::InvalidData);
    let fix = FbFixScreeninfo { smem_len: 12, line_length: 8 };
    assert!(!bad(Info { var: narrow(), fix }));
    assert!(bad(Info { var: narrow(), fix: FbFixScreeninfo { smem_len: 11, ..fix } }));
    assert!(bad(Info { var: FbVarScreeninfo { xres: 0, ..narrow() }, fix }));
    assert!(bad(Info { var: FbVarScreeninfo { yres: 0, ..narrow() }, fix }));
    assert!(bad(Info { var: FbVarScreeninfo { xoffset: 1, ..narrow() }, fix }));
    let m = u32::MAX;
    let huge = FbVarScreeninfo { xres: m, yres: m, xoffset: m, yoffset: m, ..wide() };
    assert!(bad(Info { var: huge, fix: FbFixScreeninfo { smem_len: m, line_length: m } }));
    assert_eq!(FbError::InvalidData.message(), "bad fbdev geometry");
}
