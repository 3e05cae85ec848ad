//! The picture of an X server's screen: how its bytes are laid out, in which
//! order it is fetched, and when it is of use.
use vstd::arithmetic::div_mod::lemma_fundamental_div_mod;
use vstd::prelude::*;

use crate::snapshot::{looks_blank, pack_rows, packed, PixFmt, Snapshot};

verus! {

/// How long an X server may take to hand out its picture.
pub const TIMEOUT_MILLIS: u64 = 1500;

/// A screen of an X server.
#[derive(Debug, Clone, Copy, PartialEq, Eq, Structural)]
pub struct XScreen {
    pub root: u32,
    pub width_in_pixels: u16,
    pub height_in_pixels: u16,
    pub root_depth: u8,
}

/// How pictures of a depth are laid out.
#[derive(Debug, Clone, Copy, PartialEq, Eq, Structural)]
pub struct XFormat {
    pub depth: u8,
    pub bits_per_pixel: u8,
    /// Each row takes a multiple of so many bits.
    pub scanline_pad: u8,
}

/// What an X server says of itself on connecting.
pub struct XSetup {
    pub roots: Vec<XScreen>,
    pub pixmap_formats: Vec<XFormat>,
    /// Pictures come with the least significant byte first.
    pub lsb_first: bool,
}

/// How the picture of the screen will be laid out.
#[derive(Debug, Clone, Copy, PartialEq, Eq, Structural)]
pub struct ImageLayout {
    pub root: u32,
    pub width: u16,
    pub height: u16,
    pub fmt: PixFmt,
    /// Bytes from one row to the next.
    pub stride: usize,
    /// Bytes in all rows.
    pub size: u64,
}

/// The first format for pictures of the given depth.
pub open spec fn format_for(formats: Seq<XFormat>, depth: u8) -> Option<XFormat>
    decreases formats.len(),
{
    if formats.len() == 0 {
        None
    } else if formats[0].depth == depth {
        Some(formats[0])
    } else {
        format_for(formats.drop_first(), depth)
    }
}

/// The pixel format of pictures of the given depth and bits per pixel.
pub open spec fn pixfmt_for(depth: u8, bits_per_pixel: u8) -> Option<PixFmt> {
    if (depth == 24 || depth == 32) && bits_per_pixel == 32 {
        Some(PixFmt::Xrgb8888)
    } else if depth == 16 && bits_per_pixel == 16 {
        Some(PixFmt::Rgb565)
    } else {
        None
    }
}

/// The first screen and the format of its pictures, if they can be used.
pub open spec fn readable(setup: XSetup) -> Option<(XScreen, XFormat, PixFmt)> {
    if setup.roots@.len() == 0 {
        None
    } else {
        let screen = setup.roots@[0];
        match format_for(setup.pixmap_formats@, screen.root_depth) {
            None => None,
            Some(f) => match pixfmt_for(f.depth, f.bits_per_pixel) {
                Some(fmt) if setup.lsb_first => Some((screen, f, fmt)),
                _ => None,
            },
        }
    }
}

/// Bytes in a row of `width` pixels: the smallest multiple of the pad that
/// holds them all.
pub open spec fn row_stride(width: int, bits_per_pixel: int, pad: int) -> int {
    (width * bits_per_pixel + pad - 1) / pad * pad / 8
}

/// The format that is used has a pad.
pub open spec fn padded(setup: XSetup) -> bool {
    readable(setup) matches Some((_, f, _)) ==> f.scanline_pad != 0
}

/// A row of pixels fits the stride.
proof fn lemma_stride(width: int, bytes: int, pad: int)
    requires
        0 <= width <= 65535,
        0 <= bytes <= 4,
        0 < pad <= 255,
    ensures
        width * bytes <= row_stride(width, 8 * bytes, pad) <= 300000,
        0 <= width * (8 * bytes) <= 65535 * 32,
        (width * (8 * bytes) + pad - 1) / pad * pad <= width * (8 * bytes) + pad - 1,
        0 <= (width * (8 * bytes) + pad - 1) / pad * pad,
{
    let bits = width * (8 * bytes);
    assert(0 <= bits <= 65535 * 32 && bits == 8 * (width * bytes)) by (nonlinear_arith)
        requires
            0 <= width <= 65535,
            0 <= bytes <= 4,
            bits == width * (8 * bytes),
    ;
    let q = (bits + pad - 1) / pad;
    lemma_fundamental_div_mod(bits + pad - 1, pad);
    assert(bits <= q * pad <= bits + pad - 1) by (nonlinear_arith)
        requires
            bits + pad - 1 == pad * q + (bits + pad - 1) % pad,
            0 <= (bits + pad - 1) % pad < pad,
    ;
}

/// The first format of the given depth.
fn find_format(formats: &Vec<XFormat>, depth: u8) -> (f: Option<XFormat>)
    ensures
        f == format_for(formats@, depth),
        f is None <==> forall|k: int| 0 <= k < formats@.len() ==> formats@[k].depth != depth,
        forall|k: int|
            0 <= k < formats@.len() && (#[trigger] formats@[k]).depth == depth && (forall|j: int|
                0 <= j < k ==> formats@[j].depth != depth) ==> f == Some(formats@[k]),
{
    let n: usize = formats.len();
    let mut i: usize = 0;
    assert(formats@.skip(0) =~= formats@);
    while i < n
        invariant
            i <= n,
            n == formats@.len(),
            forall|j: int| 0 <= j < i ==> formats@[j].depth != depth,
            format_for(formats@, depth) == format_for(formats@.skip(i as int), depth),
        decreases n - i,
    {
        assert(formats@.skip(i as int).drop_first() =~= formats@.skip(i + 1));
        if formats[i].depth == depth {
            return Some(formats[i]);
        }
        i = i + 1;
    }
    None
}

/// The format for pictures of a depth is the first that has exactly this depth.
pub proof fn law_format_has_depth(formats: Seq<XFormat>, depth: u8, k: int)
    requires
        0 <= k < formats.len(),
        formats[k].depth == depth,
        forall|j: int| 0 <= j < k ==> (#[trigger] formats[j]).depth != depth,
    ensures
        format_for(formats, depth) == Some(formats[k]),
    decreases k,
{
    if k > 0 {
        let rest = formats.drop_first();
        assert(formats[0].depth != depth);
        assert forall|j: int| 0 <= j < k - 1 implies (#[trigger] rest[j]).depth != depth by {
            assert(formats[j + 1].depth != depth);
        }
        law_format_has_depth(rest, depth, k - 1);
    }
}

/// Where no format has the depth, there is none for it.
pub proof fn law_no_format(formats: Seq<XFormat>, depth: u8)
    requires
        forall|j: int| 0 <= j < formats.len() ==> (#[trigger] formats[j]).depth != depth,
    ensures
        format_for(formats, depth) is None,
    decreases formats.len(),
{
    if formats.len() > 0 {
        let rest = formats.drop_first();
        assert(formats[0].depth != depth);
        assert forall|j: int| 0 <= j < rest.len() implies (#[trigger] rest[j]).depth != depth by {
            assert(formats[j + 1].depth != depth);
        }
        law_no_format(rest, depth);
    }
}

/// What a server's pictures are made of is told by its first screen and the
/// first format of that screen's depth: 32 bits for a depth of 24 or 32, 16 for
/// one of 16. Anything else, and another byte order, can't be read.
pub proof fn law_readable(setup: XSetup, k: int)
    requires
        setup.roots@.len() > 0,
        0 <= k < setup.pixmap_formats@.len(),
        setup.pixmap_formats@[k].depth == setup.roots@[0].root_depth,
        forall|j: int|
            0 <= j < k ==> (#[trigger] setup.pixmap_formats@[j]).depth
                != setup.roots@[0].root_depth,
    ensures
        ({
            let screen = setup.roots@[0];
            let f = setup.pixmap_formats@[k];
            let wide = (screen.root_depth == 24 || screen.root_depth == 32) && f.bits_per_pixel == 32;
            let narrow = screen.root_depth == 16 && f.bits_per_pixel == 16;
            &&& setup.lsb_first && wide ==> readable(setup) == Some((screen, f, PixFmt::Xrgb8888))
            &&& setup.lsb_first && narrow ==> readable(setup) == Some((screen, f, PixFmt::Rgb565))
            &&& !setup.lsb_first || !wide && !narrow ==> readable(setup) is None
            &&& padded(setup) <==> readable(setup) is None || f.scanline_pad != 0
        }),
{
    law_format_has_depth(setup.pixmap_formats@, setup.roots@[0].root_depth, k);
}

/// Without a screen, or without a format of its depth, nothing can be read.
pub proof fn law_unreadable(setup: XSetup)
    requires
        setup.roots@.len() == 0 || forall|j: int|
            0 <= j < setup.pixmap_formats@.len() ==> (#[trigger] setup.pixmap_formats@[j]).depth
                != setup.roots@[0].root_depth,
    ensures
        readable(setup) is None,
        padded(setup),
{
    if setup.roots@.len() > 0 {
        law_no_format(setup.pixmap_formats@, setup.roots@[0].root_depth);
    }
}

/// The bits of a row are rounded up to a multiple of the pad, and to no larger
/// one than needed; the stride is that in whole bytes.
pub proof fn law_row_stride(width: int, bits_per_pixel: int, pad: int, m: int)
    requires
        width >= 0,
        bits_per_pixel >= 0,
        pad > 0,
        width * bits_per_pixel <= m * pad < width * bits_per_pixel + pad,
    ensures
        row_stride(width, bits_per_pixel, pad) == m * pad / 8,
{
    let bits = width * bits_per_pixel;
    let q = (bits + pad - 1) / pad;
    lemma_fundamental_div_mod(bits + pad - 1, pad);
    assert(q == m) by (nonlinear_arith)
        requires
            bits + pad - 1 == pad * q + (bits + pad - 1) % pad,
            0 <= (bits + pad - 1) % pad < pad,
            bits <= m * pad < bits + pad,
            pad > 0,
    ;
}

/// The pixel format of pictures in format `f`.
fn find_pixfmt(f: &XFormat) -> (fmt: Option<PixFmt>)
    ensures
        fmt == pixfmt_for(f.depth, f.bits_per_pixel),
{
    if (f.depth == 24 || f.depth == 32) && f.bits_per_pixel == 32 {
        Some(PixFmt::Xrgb8888)
    } else if f.depth == 16 && f.bits_per_pixel == 16 {
        Some(PixFmt::Rgb565)
    } else {
        None
    }
}

/// The first screen and the format of its pictures, if they can be used.
fn find_readable(setup: &XSetup) -> (found: Option<(XScreen, XFormat, PixFmt)>)
    ensures
        found == readable(*setup),
{
    if setup.roots.len() == 0 {
        return None;
    }
    let screen = setup.roots[0];
    match find_format(&setup.pixmap_formats, screen.root_depth) {
        Some(f) => match find_pixfmt(&f) {
            Some(fmt) => if setup.lsb_first {
                Some((screen, f, fmt))
            } else {
                None
            },
            None => None,
        },
        None => None,
    }
}

/// Whether the format that is used has a pad, without which its rows have no
/// size.
pub fn is_padded(setup: &XSetup) -> (yes: bool)
    ensures
        yes == padded(*setup),
{
    match find_readable(setup) {
        Some((_, f, _)) => f.scanline_pad != 0,
        None => true,
    }
}

/// How the picture of the first screen will be laid out, if it can be used.
pub fn image_layout(setup: &XSetup) -> (layout: Option<ImageLayout>)
    requires
        padded(*setup),
    ensures
        match layout {
            Some(l) => {
                &&& readable(*setup) matches Some((screen, f, fmt))
                &&& l.root == screen.root
                &&& l.width == screen.width_in_pixels
                &&& l.height == screen.height_in_pixels
                &&& l.fmt == fmt
                &&& l.stride == row_stride(
                    l.width as int,
                    f.bits_per_pixel as int,
                    f.scanline_pad as int,
                )
                &&& l.size == l.stride * l.height
                &&& l.width * fmt.bpp() <= l.stride
            },
            None => readable(*setup) is None,
        },
{
    let (screen, f, fmt) = match find_readable(setup) {
        Some(found) => found,
        None => return None,
    };
    let pad: usize = f.scanline_pad as usize;
    proof {
        lemma_stride(screen.width_in_pixels as int, fmt.bpp() as int, pad as int);
    }
    let bits: usize = screen.width_in_pixels as usize * f.bits_per_pixel as usize;
    let stride: usize = ((bits + pad - 1) / pad) * pad / 8;
    assert(0 <= stride * screen.height_in_pixels <= 300000 * 65535) by (nonlinear_arith)
        requires
            0 <= stride <= 300000,
            0 <= screen.height_in_pixels <= 65535,
    ;
    let size: u64 = stride as u64 * screen.height_in_pixels as u64;
    Some(
        ImageLayout {
            root: screen.root,
            width: screen.width_in_pixels,
            height: screen.height_in_pixels,
            fmt,
            stride,
            size,
        },
    )
}

/// The picture whose bytes the X server handed out, without the padding of its
/// rows. Too few bytes give no picture.
pub fn grab(setup: &XSetup, raw: &[u8]) -> (image: Option<Snapshot>)
    requires
        padded(*setup),
    ensures
        match image {
            Some(s) => {
                &&& readable(*setup) matches Some((screen, f, fmt))
                &&& raw@.len() >= row_stride(
                    screen.width_in_pixels as int,
                    f.bits_per_pixel as int,
                    f.scanline_pad as int,
                ) * screen.height_in_pixels
                &&& s.width == screen.width_in_pixels
                &&& s.height == screen.height_in_pixels
                &&& s.fmt == fmt
                &&& s.well_formed()
                &&& packed(
                    s.data@,
                    raw@,
                    0,
                    row_stride(
                        screen.width_in_pixels as int,
                        f.bits_per_pixel as int,
                        f.scanline_pad as int,
                    ) as nat,
                    s.stride(),
                    s.height as nat,
                )
                &&& {
                    let stride = row_stride(
                        screen.width_in_pixels as int,
                        f.bits_per_pixel as int,
                        f.scanline_pad as int,
                    );
                    let row = s.width * fmt.bpp();
                    forall|y: int, c: int|
                        0 <= y < s.height && 0 <= c < row ==> #[trigger] s.data@[y * row + c]
                            == raw@[y * stride + c]
                }
            },
            None => readable(*setup) matches Some((screen, f, _)) ==> raw@.len() < row_stride(
                screen.width_in_pixels as int,
                f.bits_per_pixel as int,
                f.scanline_pad as int,
            ) * screen.height_in_pixels,
        },
{
    let layout = match image_layout(setup) {
        Some(l) => l,
        None => return None,
    };
    if (raw.len() as u64) < layout.size {
        return None;
    }
    assert(raw@.len() == raw.len());
    let rows: usize = layout.height as usize;
    let row: usize = layout.width as usize * layout.fmt.bytes_per_pixel();
    assert(rows > 0 ==> (rows - 1) * layout.stride + row <= layout.stride * rows)
        by (nonlinear_arith)
        requires
            row <= layout.stride,
            rows >= 0,
    ;
    let data = pack_rows(raw, 0, layout.stride, row, rows);
    Some(
        Snapshot {
            width: layout.width as u32,
            height: layout.height as u32,
            fmt: layout.fmt,
            data,
        },
    )
}

/// Lets a picture through unless it looks blank.
pub fn capture(image: Option<Snapshot>) -> (usable: Option<Snapshot>)
    ensures
        usable == match image {
            Some(s) if !looks_blank(s.data@) => image,
            _ => None,
        },
        usable is Some ==> usable == image,
        usable is Some <==> (image matches Some(s) && exists|i: int|
            0 <= i < s.data@.len() && i % 61 == 0 && #[trigger] s.data@[i] != 0),
{
    match image {
        Some(s) => if s.is_blank() {
            None
        } else {
            Some(s)
        },
        None => None,
    }
}

/// The steps in which a picture is fetched: through shared memory, which spares
/// the socket a whole frame, and over the socket where that does not work.
#[derive(Debug, Clone, Copy, PartialEq, Eq, Structural)]
pub enum GrabStep {
    QueryVersion,
    CreateMemfd,
    Truncate,
    GenerateId,
    CloneFd,
    Attach,
    GetImage,
    MapMemory,
    /// The shared memory is no longer needed. Holds whether it was read.
    Detach(bool),
    SocketImage,
    Done,
    Fail,
}

/// The step after `step`, which went well or not.
pub open spec fn step_after(step: GrabStep, ok: bool) -> GrabStep {
    match step {
        GrabStep::Done => GrabStep::Done,
        GrabStep::Fail => GrabStep::Fail,
        GrabStep::Detach(read) => if read {
            GrabStep::Done
        } else {
            GrabStep::SocketImage
        },
        GrabStep::GetImage => if ok {
            GrabStep::MapMemory
        } else {
            GrabStep::Detach(false)
        },
        GrabStep::MapMemory => GrabStep::Detach(ok),
        GrabStep::SocketImage => if ok {
            GrabStep::Done
        } else {
            GrabStep::Fail
        },
        _ if !ok => GrabStep::SocketImage,
        GrabStep::QueryVersion => GrabStep::CreateMemfd,
        GrabStep::CreateMemfd => GrabStep::Truncate,
        GrabStep::Truncate => GrabStep::GenerateId,
        GrabStep::GenerateId => GrabStep::CloneFd,
        GrabStep::CloneFd => GrabStep::Attach,
        GrabStep::Attach => GrabStep::GetImage,
    }
}

impl GrabStep {
    /// The step that comes next, after this one went well or not.
    pub fn next(self, ok: bool) -> (step: GrabStep)
        ensures
            step == step_after(self, ok),
    {
        match self {
            GrabStep::Done => GrabStep::Done,
            GrabStep::Fail => GrabStep::Fail,
            GrabStep::Detach(true) => GrabStep::Done,
            GrabStep::Detach(false) => GrabStep::SocketImage,
            GrabStep::GetImage => if ok {
                GrabStep::MapMemory
            } else {
                GrabStep::Detach(false)
            },
            GrabStep::MapMemory => GrabStep::Detach(ok),
            GrabStep::SocketImage => if ok {
                GrabStep::Done
            } else {
                GrabStep::Fail
            },
            GrabStep::QueryVersion => if ok {
                GrabStep::CreateMemfd
            } else {
                GrabStep::SocketImage
            },
            GrabStep::CreateMemfd => if ok {
                GrabStep::Truncate
            } else {
                GrabStep::SocketImage
            },
            GrabStep::Truncate => if ok {
                GrabStep::GenerateId
            } else {
                GrabStep::SocketImage
            },
            GrabStep::GenerateId => if ok {
                GrabStep::CloneFd
            } else {
                GrabStep::SocketImage
            },
            GrabStep::CloneFd => if ok {
                GrabStep::Attach
            } else {
                GrabStep::SocketImage
            },
            GrabStep::Attach => if ok {
                GrabStep::GetImage
            } else {
                GrabStep::SocketImage
            },
        }
    }
}

/// The step after a grab whose steps so far went as told.
pub open spec fn grabbed(outcomes: Seq<bool>) -> GrabStep
    decreases outcomes.len(),
{
    if outcomes.len() == 0 {
        GrabStep::QueryVersion
    } else {
        step_after(grabbed(outcomes.drop_last()), outcomes.last())
    }
}

/// How often a segment was attached and not detached.
pub open spec fn attached(outcomes: Seq<bool>) -> int
    decreases outcomes.len(),
{
    if outcomes.len() == 0 {
        0
    } else {
        let before = attached(outcomes.drop_last());
        match grabbed(outcomes.drop_last()) {
            GrabStep::Attach => if outcomes.last() {
                before + 1
            } else {
                before
            },
            GrabStep::Detach(_) => before - 1,
            _ => before,
        }
    }
}

/// A segment is attached exactly while the picture is read from it: whatever
/// fails, it is detached again before the grab goes on or ends.
pub proof fn law_attached_is_detached(outcomes: Seq<bool>)
    ensures
        attached(outcomes) == match grabbed(outcomes) {
            GrabStep::GetImage | GrabStep::MapMemory | GrabStep::Detach(_) => 1int,
            _ => 0,
        },
    decreases outcomes.len(),
{
    if outcomes.len() > 0 {
        law_attached_is_detached(outcomes.drop_last());
    }
}

/// How many steps are left at most.
pub open spec fn steps_left(step: GrabStep) -> nat {
    match step {
        GrabStep::QueryVersion => 10,
        GrabStep::CreateMemfd => 9,
        GrabStep::Truncate => 8,
        GrabStep::GenerateId => 7,
        GrabStep::CloneFd => 6,
        GrabStep::Attach => 5,
        GrabStep::GetImage => 4,
        GrabStep::MapMemory => 3,
        GrabStep::Detach(_) => 2,
        GrabStep::SocketImage => 1,
        GrabStep::Done | GrabStep::Fail => 0,
    }
}

/// A grab is over after ten steps at the latest.
pub proof fn law_grab_ends(outcomes: Seq<bool>)
    ensures
        steps_left(grabbed(outcomes)) + outcomes.len() <= 10 || grabbed(outcomes) is Done
            || grabbed(outcomes) is Fail,
    decreases outcomes.len(),
{
    if outcomes.len() > 0 {
        law_grab_ends(outcomes.drop_last());
    }
}

/// A grab only fails when the socket would not hand out the picture either.
pub proof fn law_socket_is_last_resort(outcomes: Seq<bool>)
    requires
        outcomes.len() > 0,
        grabbed(outcomes) is Fail,
        grabbed(outcomes.drop_last()) !is Fail,
    ensures
        grabbed(outcomes.drop_last()) is SocketImage,
        !outcomes.last(),
{
}

/// A picture that was read from the shared memory is used, however the detaching
/// goes. Where anything on the way to it failed, the socket is asked.
pub proof fn law_shared_memory_first(ok: bool)
    ensures
        step_after(GrabStep::QueryVersion, true) is CreateMemfd,
        step_after(GrabStep::CreateMemfd, true) is Truncate,
        step_after(GrabStep::Truncate, true) is GenerateId,
        step_after(GrabStep::GenerateId, true) is CloneFd,
        step_after(GrabStep::CloneFd, true) is Attach,
        step_after(GrabStep::Attach, true) is GetImage,
        step_after(GrabStep::GetImage, true) is MapMemory,
        step_after(GrabStep::QueryVersion, false) is SocketImage,
        step_after(GrabStep::CreateMemfd, false) is SocketImage,
        step_after(GrabStep::Truncate, false) is SocketImage,
        step_after(GrabStep::GenerateId, false) is SocketImage,
        step_after(GrabStep::CloneFd, false) is SocketImage,
        step_after(GrabStep::Attach, false) is SocketImage,
        step_after(step_after(GrabStep::GetImage, false), ok) is SocketImage,
        step_after(step_after(GrabStep::MapMemory, false), ok) is SocketImage,
        step_after(step_after(GrabStep::MapMemory, true), ok) is Done,
        step_after(GrabStep::SocketImage, true) is Done,
        step_after(GrabStep::SocketImage, false) is Fail,
        step_after(GrabStep::Done, ok) is Done,
        step_after(GrabStep::Fail, ok) is Fail,
{
}

} // verus!
