//! Read-only capture of the text console from the framebuffer device. Nothing
//! here writes to the framebuffer: all drawing goes through buffers of our own
//! (see the `kms` module), so the console's content can't be corrupted.
use vstd::prelude::*;

use crate::snapshot::{pack_rows, packed, PixFmt, Snapshot};

verus! {

/// Where a colour channel sits in a pixel.
#[derive(Debug, Clone, Copy, PartialEq, Eq, Structural)]
pub struct FbBitfield {
    pub offset: u32,
    pub length: u32,
    pub msb_right: u32,
}

/// What the framebuffer device says of the mode it shows.
#[derive(Debug, Clone, Copy, PartialEq, Eq, Structural)]
pub struct FbVarScreeninfo {
    pub xres: u32,
    pub yres: u32,
    pub xoffset: u32,
    pub yoffset: u32,
    pub bits_per_pixel: u32,
    pub red: FbBitfield,
    pub green: FbBitfield,
    pub blue: FbBitfield,
}

/// What the framebuffer device says of its memory.
#[derive(Debug, Clone, Copy, PartialEq, Eq, Structural)]
pub struct FbFixScreeninfo {
    pub smem_len: u32,
    pub line_length: u32,
}

/// Both replies of the framebuffer device.
#[derive(Debug, Clone, Copy, PartialEq, Eq, Structural)]
pub struct Info {
    pub var: FbVarScreeninfo,
    pub fix: FbFixScreeninfo,
}

/// Why a console can't be captured.
#[derive(Debug, Clone, Copy, PartialEq, Eq, Structural)]
pub enum FbError {
    /// The pixels are laid out in a way that is not understood.
    Unsupported,
    /// The visible area does not lie inside the device's memory.
    InvalidData,
}

impl FbError {
    /// The text that goes with the error.
    pub fn message(self) -> (text: &'static str)
        ensures
            text@ == match self {
                FbError::Unsupported => "unsupported fbdev pixel format"@,
                FbError::InvalidData => "bad fbdev geometry"@,
            },
    {
        match self {
            FbError::Unsupported => "unsupported fbdev pixel format",
            FbError::InvalidData => "bad fbdev geometry",
        }
    }
}

/// The pixel format that the device describes, if it is one of ours.
pub open spec fn pixfmt_of(var: FbVarScreeninfo) -> Option<PixFmt> {
    let offsets = (var.red.offset, var.green.offset, var.blue.offset);
    if var.bits_per_pixel == 32 && offsets == (16u32, 8u32, 0u32) {
        Some(PixFmt::Xrgb8888)
    } else if var.bits_per_pixel == 16 && offsets == (11u32, 5u32, 0u32) {
        Some(PixFmt::Rgb565)
    } else {
        None
    }
}

/// Where the first visible pixel sits in memory.
pub open spec fn origin_of(info: Info, fmt: PixFmt) -> nat {
    (info.var.yoffset * info.fix.line_length + info.var.xoffset * fmt.bpp()) as nat
}

/// Where the last visible pixel ends in memory.
pub open spec fn end_of(info: Info, fmt: PixFmt) -> int {
    origin_of(info, fmt) + (info.var.yres - 1) * info.fix.line_length + info.var.xres * fmt.bpp()
}

/// There is a visible area, and it lies inside the device's memory.
pub open spec fn geometry_ok(info: Info, fmt: PixFmt) -> bool {
    &&& info.var.xres != 0
    &&& info.var.yres != 0
    &&& end_of(info, fmt) <= info.fix.smem_len
}

/// The error for a pixel format that is not understood.
pub fn unsupported() -> (e: FbError)
    ensures
        e == FbError::Unsupported,
{
    FbError::Unsupported
}

/// The pixel format of the device, if it is one of ours.
pub fn pixfmt(var: &FbVarScreeninfo) -> (fmt: Option<PixFmt>)
    ensures
        fmt == pixfmt_of(*var),
        fmt == Some(PixFmt::Xrgb8888) <==> var.bits_per_pixel == 32 && var.red.offset == 16
            && var.green.offset == 8 && var.blue.offset == 0,
        fmt == Some(PixFmt::Rgb565) <==> var.bits_per_pixel == 16 && var.red.offset == 11
            && var.green.offset == 5 && var.blue.offset == 0,
{
    if var.bits_per_pixel == 32 && var.red.offset == 16 && var.green.offset == 8 && var.blue.offset
        == 0 {
        Some(PixFmt::Xrgb8888)
    } else if var.bits_per_pixel == 16 && var.red.offset == 11 && var.green.offset == 5
        && var.blue.offset == 0 {
        Some(PixFmt::Rgb565)
    } else {
        None
    }
}

/// The pixel format of the console.
pub fn format(info: &Info) -> (fmt: Result<PixFmt, FbError>)
    ensures
        match fmt {
            Ok(f) => pixfmt_of(info.var) == Some(f),
            Err(e) => e == FbError::Unsupported && pixfmt_of(info.var) is None,
        },
        fmt == Ok::<PixFmt, FbError>(PixFmt::Xrgb8888) <==> info.var.bits_per_pixel == 32
            && info.var.red.offset == 16 && info.var.green.offset == 8 && info.var.blue.offset == 0,
        fmt == Ok::<PixFmt, FbError>(PixFmt::Rgb565) <==> info.var.bits_per_pixel == 16
            && info.var.red.offset == 11 && info.var.green.offset == 5 && info.var.blue.offset == 0,
{
    match pixfmt(&info.var) {
        Some(fmt) => Ok(fmt),
        None => Err(unsupported()),
    }
}

/// Where the visible area of the console lies in the device's memory.
#[derive(Debug, Clone, Copy, PartialEq, Eq, Structural)]
pub struct Area {
    pub fmt: PixFmt,
    pub width: u32,
    pub height: u32,
    /// Offset of the first visible pixel.
    pub origin: usize,
    /// Bytes from one row to the next.
    pub pitch: usize,
    /// Bytes of memory to map.
    pub len: usize,
}

impl Area {
    /// All rows lie inside the memory.
    pub open spec fn well_formed(self) -> bool {
        &&& self.width != 0
        &&& self.height != 0
        &&& self.origin + (self.height - 1) * self.pitch + self.width * self.fmt.bpp() <= self.len
    }
}

/// Finds the visible area, before any memory is mapped.
pub fn visible_area(info: &Info) -> (area: Result<Area, FbError>)
    ensures
        match area {
            Ok(a) => {
                &&& pixfmt_of(info.var) == Some(a.fmt)
                &&& geometry_ok(*info, a.fmt)
                &&& a.width == info.var.xres
                &&& a.height == info.var.yres
                &&& a.origin == origin_of(*info, a.fmt)
                &&& a.pitch == info.fix.line_length
                &&& a.len == info.fix.smem_len
                &&& a.well_formed()
                &&& a.origin == info.var.yoffset * info.fix.line_length + info.var.xoffset
                    * a.fmt.bpp()
            },
            Err(FbError::Unsupported) => pixfmt_of(info.var) is None,
            Err(FbError::InvalidData) => pixfmt_of(info.var) is Some && !geometry_ok(
                *info,
                pixfmt_of(info.var)->0,
            ),
        },
{
    let fmt = match format(info) {
        Ok(fmt) => fmt,
        Err(e) => return Err(e),
    };
    let w: u32 = info.var.xres;
    let h: u32 = info.var.yres;
    if w == 0 || h == 0 {
        return Err(FbError::InvalidData);
    }
    let bpp: u128 = fmt.bytes_per_pixel() as u128;
    let pitch: u128 = info.fix.line_length as u128;
    proof {
        let m = u32::MAX as int;
        assert(0 <= info.var.yoffset * pitch <= m * m && 0 <= (h - 1) * pitch <= m * m)
            by (nonlinear_arith)
            requires
                0 <= info.var.yoffset <= m,
                0 <= pitch <= m,
                1 <= h <= m,
        ;
        assert(0 <= info.var.xoffset * bpp <= 4 * m && 0 <= w * bpp <= 4 * m) by (nonlinear_arith)
            requires
                0 <= info.var.xoffset <= m,
                0 <= w <= m,
                0 <= bpp <= 4,
        ;
    }
    let origin: u128 = info.var.yoffset as u128 * pitch + info.var.xoffset as u128 * bpp;
    let end: u128 = origin + (h as u128 - 1) * pitch + w as u128 * bpp;
    if end > info.fix.smem_len as u128 {
        return Err(FbError::InvalidData);
    }
    Ok(
        Area {
            fmt,
            width: w,
            height: h,
            origin: origin as usize,
            pitch: pitch as usize,
            len: info.fix.smem_len as usize,
        },
    )
}

/// Copies the visible area out of the device's memory.
pub fn read_area(area: &Area, mem: &[u8]) -> (image: Snapshot)
    requires
        area.well_formed(),
        mem@.len() == area.len,
    ensures
        image.width == area.width,
        image.height == area.height,
        image.fmt == area.fmt,
        image.well_formed(),
        packed(
            image.data@,
            mem@,
            area.origin as nat,
            area.pitch as nat,
            image.stride(),
            area.height as nat,
        ),
        ({
            let row = area.width * area.fmt.bpp();
            &&& image.data@.len() == area.height * row
            &&& forall|y: int, c: int|
                0 <= y < area.height && 0 <= c < row ==> #[trigger] image.data@[y * row + c]
                    == mem@[area.origin + y * area.pitch + c]
        }),
{
    assert(0 <= (area.height - 1) * area.pitch) by (nonlinear_arith)
        requires
            area.height >= 1,
            area.pitch >= 0,
    ;
    let row: usize = area.width as usize * area.fmt.bytes_per_pixel();
    let data = pack_rows(mem, area.origin, area.pitch, row, area.height as usize);
    Snapshot { width: area.width, height: area.height, fmt: area.fmt, data }
}

/// Snapshots the visible area of the text console, of whose memory `mem` is
/// the whole.
pub fn capture(info: &Info, mem: &[u8]) -> (image: Result<Snapshot, FbError>)
    requires
        mem@.len() == info.fix.smem_len,
    ensures
        match image {
            Ok(s) => {
                &&& pixfmt_of(info.var) == Some(s.fmt)
                &&& geometry_ok(*info, s.fmt)
                &&& s.width == info.var.xres
                &&& s.height == info.var.yres
                &&& s.well_formed()
                &&& packed(
                    s.data@,
                    mem@,
                    origin_of(*info, s.fmt),
                    info.fix.line_length as nat,
                    s.stride(),
                    s.height as nat,
                )
                &&& {
                    let origin = info.var.yoffset * info.fix.line_length + info.var.xoffset
                        * s.fmt.bpp();
                    let row = s.width * s.fmt.bpp();
                    &&& s.data@.len() == s.height * row
                    &&& forall|y: int, c: int|
                        0 <= y < s.height && 0 <= c < row ==> #[trigger] s.data@[y * row + c]
                            == mem@[origin + y * info.fix.line_length + c]
                }
            },
            Err(FbError::Unsupported) => pixfmt_of(info.var) is None,
            Err(FbError::InvalidData) => pixfmt_of(info.var) is Some && !geometry_ok(
                *info,
                pixfmt_of(info.var)->0,
            ),
        },
{
    match visible_area(info) {
        Ok(area) => Ok(read_area(&area, mem)),
        Err(e) => Err(e),
    }
}

/// The two formats that are understood, by where their channels sit.
pub proof fn law_formats(var: FbVarScreeninfo)
    ensures
        pixfmt_of(var) == Some(PixFmt::Xrgb8888) <==> var.bits_per_pixel == 32 && var.red.offset
            == 16 && var.green.offset == 8 && var.blue.offset == 0,
        pixfmt_of(var) == Some(PixFmt::Rgb565) <==> var.bits_per_pixel == 16 && var.red.offset == 11
            && var.green.offset == 5 && var.blue.offset == 0,
{
}

/// The visible area lies in the memory exactly when its last row ends in it. Row
/// `y` of it starts so many lines and columns after the start of the memory as the
/// device has panned, and `y` lines more.
pub proof fn law_visible_area(info: Info, fmt: PixFmt)
    ensures
        geometry_ok(info, fmt) <==> {
            &&& info.var.xres > 0
            &&& info.var.yres > 0
            &&& (info.var.yoffset + info.var.yres - 1) * info.fix.line_length + (info.var.xoffset
                + info.var.xres) * fmt.bpp() <= info.fix.smem_len
        },
        origin_of(info, fmt) == info.var.yoffset * info.fix.line_length + info.var.xoffset
            * fmt.bpp(),
        fmt is Xrgb8888 ==> fmt.bpp() == 4,
        fmt is Rgb565 ==> fmt.bpp() == 2,
{
    let (x, y, w, h) = (
        info.var.xoffset as int,
        info.var.yoffset as int,
        info.var.xres as int,
        info.var.yres as int,
    );
    let (line, bpp) = (info.fix.line_length as int, fmt.bpp() as int);
    assert(y * line + x * bpp + (h - 1) * line + w * bpp == (y + h - 1) * line + (x + w) * bpp
        && 0 <= y * line && 0 <= x * bpp) by (nonlinear_arith)
        requires
            x >= 0,
            y >= 0,
            line >= 0,
            bpp >= 0,
    ;
}

/// The rows of an area lie in the memory exactly when the last one ends in it.
pub proof fn law_area_fits(area: Area)
    ensures
        area.well_formed() <==> area.width > 0 && area.height > 0 && area.origin + (area.height - 1)
            * area.pitch + area.width * area.fmt.bpp() <= area.len,
{
}

} // verus!
