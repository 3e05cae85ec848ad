//! The slide between two screens: which pictures it joins, and what each
//! frame of it shows.
use vstd::arithmetic::div_mod::lemma_fundamental_div_mod_converse;
use vstd::prelude::*;

use crate::fb::{capture, geometry_ok, origin_of, pixfmt_of, Info};
use crate::gesture::SwipeDirection;
use crate::snapshot::{packed, Snapshot};

verus! {

/// How long the slide takes.
pub const DURATION_NANOS: u128 = 260_000_000;

/// How long a console gets, once it is active, to draw before it is captured: a
/// shell repaints almost at once, but not synchronously with the switch.
pub const SETTLE_MILLIS: u64 = 60;

/// The shape of a frame in memory.
#[derive(Debug, Clone, Copy, PartialEq, Eq, Structural)]
pub struct Geometry {
    pub width: u32,
    pub height: u32,
    pub bits_per_pixel: u32,
    /// Bytes from the start of one row to the start of the next.
    pub line_length: u32,
}

impl Geometry {
    /// Bytes that one pixel takes, at least one.
    pub open spec fn bytes_per_pixel(self) -> int {
        if self.bits_per_pixel < 8 {
            1
        } else {
            self.bits_per_pixel as int / 8
        }
    }

    /// Bytes of a row that hold pixels.
    pub open spec fn visible(self) -> int {
        self.width * self.bytes_per_pixel()
    }

    /// Bytes at the start of a row that hold pixels, as far as the row goes.
    pub open spec fn shown(self) -> int {
        if self.visible() < self.line_length {
            self.visible()
        } else {
            self.line_length as int
        }
    }

    /// Bytes in all rows.
    pub open spec fn size(self) -> int {
        self.line_length * self.height
    }

    /// Rows follow each other without padding.
    pub open spec fn tight(self) -> bool {
        self.visible() == self.line_length
    }
}

/// Who draws on a terminal.
#[derive(Debug, Clone, Copy, PartialEq, Eq, Structural)]
pub enum VtKind {
    /// The text console.
    Text,
    /// An X server.
    X,
    /// Another GUI, such as a Wayland compositor, which can't be captured.
    Other,
}

/// Where the picture of the screen that is left comes from.
#[derive(Debug, Clone, Copy, PartialEq, Eq, Structural)]
pub enum Outgoing {
    /// The framebuffer device.
    Console,
    /// The X server.
    XServer,
}

/// Where the picture of the screen that is entered comes from.
#[derive(Debug, Clone, Copy, PartialEq, Eq, Structural)]
pub enum Incoming {
    /// The framebuffer device, after the switch, while a frozen frame hides it.
    ConsoleAfterSwitch,
    /// The X server, or its last picture if it won't provide one in the
    /// background.
    XServerOrLast,
    /// The last picture of that console, so that nothing flashes.
    LastConsole,
}

/// Who draws on a terminal, given whether it is in graphics mode and whether an
/// X server was found on it.
pub fn vt_kind(graphics: bool, x_server: bool) -> (kind: VtKind)
    ensures
        kind == if !graphics {
            VtKind::Text
        } else if x_server {
            VtKind::X
        } else {
            VtKind::Other
        },
{
    if !graphics {
        VtKind::Text
    } else if x_server {
        VtKind::X
    } else {
        VtKind::Other
    }
}

/// The two pictures that a switch is animated with, if it is animated. Between
/// two X servers it is not, nor with a GUI that can't be captured.
pub open spec fn animation(from: VtKind, to: VtKind) -> Option<(Outgoing, Incoming)> {
    match (from, to) {
        (VtKind::Text, VtKind::Text) => Some((Outgoing::Console, Incoming::ConsoleAfterSwitch)),
        (VtKind::Text, VtKind::X) => Some((Outgoing::Console, Incoming::XServerOrLast)),
        (VtKind::X, VtKind::Text) => Some((Outgoing::XServer, Incoming::LastConsole)),
        _ => None,
    }
}

/// The two pictures that a switch is animated with, if it is animated.
pub fn plan(from: VtKind, to: VtKind) -> (pictures: Option<(Outgoing, Incoming)>)
    ensures
        pictures == animation(from, to),
{
    match (from, to) {
        (VtKind::Text, VtKind::Text) => Some((Outgoing::Console, Incoming::ConsoleAfterSwitch)),
        (VtKind::Text, VtKind::X) => Some((Outgoing::Console, Incoming::XServerOrLast)),
        (VtKind::X, VtKind::Text) => Some((Outgoing::XServer, Incoming::LastConsole)),
        _ => None,
    }
}

/// A switch is animated exactly when the text console is at one end at least
/// and no other GUI than X at either.
pub proof fn law_when_animated(from: VtKind, to: VtKind)
    ensures
        animation(from, to) is Some <==> from !is Other && to !is Other && (from is Text
            || to is Text),
        animation(from, to) is Some <==> animation(to, from) is Some,
{
}

/// The picture of the screen that is entered, as far as there is one before the
/// switch.
pub enum Entered {
    /// This one.
    Picture(Snapshot),
    /// It has to be taken after the switch.
    AfterSwitch,
    /// There is none to be had: switch without animation.
    Nothing,
}

/// The picture of the screen that is entered, given a live one, if its X server
/// provided one, and the last one, if one was ever taken. A console that was
/// never visited has to be captured after the switch.
pub fn entered(from: Incoming, live: Option<Snapshot>, last: Option<Snapshot>) -> (picture: Entered)
    ensures
        picture == match from {
            Incoming::ConsoleAfterSwitch => Entered::AfterSwitch,
            Incoming::XServerOrLast => match (live, last) {
                (Some(s), _) => Entered::Picture(s),
                (None, Some(s)) => Entered::Picture(s),
                (None, None) => Entered::Nothing,
            },
            Incoming::LastConsole => match last {
                Some(s) => Entered::Picture(s),
                None => Entered::AfterSwitch,
            },
        },
{
    match from {
        Incoming::ConsoleAfterSwitch => Entered::AfterSwitch,
        Incoming::XServerOrLast => match live {
            Some(s) => Entered::Picture(s),
            None => match last {
                Some(s) => Entered::Picture(s),
                None => Entered::Nothing,
            },
        },
        Incoming::LastConsole => match last {
            Some(s) => Entered::Picture(s),
            None => Entered::AfterSwitch,
        },
    }
}

/// The shape of a screen image.
pub fn geometry_of(image: &Snapshot) -> (g: Geometry)
    requires
        image.stride() <= u32::MAX,
    ensures
        g.width == image.width,
        g.height == image.height,
        g.bytes_per_pixel() == image.fmt.bpp(),
        g.bits_per_pixel == 8 * image.fmt.bpp(),
        g.line_length == image.stride(),
        g.tight(),
        image.fmt is Xrgb8888 ==> g.bits_per_pixel == 32 && g.line_length == 4 * image.width,
        image.fmt is Rgb565 ==> g.bits_per_pixel == 16 && g.line_length == 2 * image.width,
{
    let bpp: u32 = image.fmt.bytes_per_pixel() as u32;
    Geometry {
        width: image.width,
        height: image.height,
        bits_per_pixel: 8 * bpp,
        line_length: image.width * bpp,
    }
}

/// The screen currently displayed, if this is a plain console, of whose memory
/// `mem` is the whole: its shape and its bytes.
pub fn capture_outgoing(info: &Info, mem: &[u8]) -> (shot: Option<(Geometry, Vec<u8>)>)
    requires
        mem@.len() == info.fix.smem_len,
    ensures
        match shot {
            Some((g, data)) => {
                &&& pixfmt_of(info.var) matches Some(fmt)
                &&& geometry_ok(*info, fmt)
                &&& g.width == info.var.xres
                &&& g.height == info.var.yres
                &&& g.bits_per_pixel == 8 * fmt.bpp()
                &&& g.tight()
                &&& packed(
                    data@,
                    mem@,
                    origin_of(*info, fmt),
                    info.fix.line_length as nat,
                    g.line_length as nat,
                    g.height as nat,
                )
                &&& g.line_length == info.var.xres * fmt.bpp()
                &&& {
                    let origin = info.var.yoffset * info.fix.line_length + info.var.xoffset
                        * fmt.bpp();
                    let row = g.line_length;
                    &&& data@.len() == g.height * row
                    &&& forall|y: int, c: int|
                        0 <= y < g.height && 0 <= c < row ==> #[trigger] data@[y * row + c]
                            == mem@[origin + y * info.fix.line_length + c]
                }
            },
            None => pixfmt_of(info.var) matches Some(fmt) ==> !geometry_ok(*info, fmt),
        },
{
    match capture(info, mem) {
        Ok(image) => {
            assert(image.stride() <= u32::MAX) by {
                assert(0 <= (info.var.yres - 1) * info.fix.line_length && 0 <= info.var.yoffset
                    * info.fix.line_length) by (nonlinear_arith)
                    requires
                        info.var.yres >= 1,
                        info.fix.line_length >= 0,
                        info.var.yoffset >= 0,
                ;
            }
            Some((geometry_of(&image), image.data))
        },
        Err(_) => None,
    }
}

/// There is something to slide between: pixels at all, and two captures of
/// the same size that fill the geometry.
pub open spec fn slidable(g: Geometry, outgoing: Seq<u8>, incoming: Seq<u8>) -> bool {
    &&& g.line_length != 0
    &&& g.width != 0
    &&& outgoing.len() == incoming.len()
    &&& outgoing.len() >= g.size()
}

/// How far the slide goes in all: columns or rows.
pub open spec fn extent(g: Geometry, direction: SwipeDirection) -> nat {
    match direction {
        SwipeDirection::Left | SwipeDirection::Right => g.width as nat,
        SwipeDirection::Up | SwipeDirection::Down => g.height as nat,
    }
}

/// The offset of a frame, never past the end of the slide.
pub open spec fn clipped(g: Geometry, direction: SwipeDirection, offset: nat) -> nat {
    if offset < extent(g, direction) {
        offset
    } else {
        extent(g, direction)
    }
}

/// The rows are long enough for the pieces that a frame is made of.
pub open spec fn composable(
    g: Geometry,
    len: nat,
    direction: SwipeDirection,
    offset: nat,
) -> bool {
    match direction {
        SwipeDirection::Left => g.height == 0 || g.visible() <= g.line_length,
        SwipeDirection::Right => g.height == 0 || clipped(g, direction, offset)
            * g.bytes_per_pixel() <= g.line_length,
        SwipeDirection::Up | SwipeDirection::Down => len == g.size(),
    }
}

/// The frame shown when the slide has moved by `offset` columns or rows.
///
/// Sideways, the pixels of each row are cut and shifted on their own; bytes past
/// the last row are zero. Up and down, whole rows move.
pub open spec fn frame_of(
    g: Geometry,
    outgoing: Seq<u8>,
    incoming: Seq<u8>,
    direction: SwipeDirection,
    offset: nat,
) -> Seq<u8> {
    let off = clipped(g, direction, offset);
    let row = g.line_length as int;
    match direction {
        SwipeDirection::Left => {
            let cut = (g.width - off) * g.bytes_per_pixel();
            Seq::new(
                outgoing.len(),
                |i: int|
                    if i >= g.size() {
                        0
                    } else if i % row < cut {
                        outgoing[i + off * g.bytes_per_pixel()]
                    } else {
                        incoming[i - cut]
                    },
            )
        },
        SwipeDirection::Right => {
            let cut = off * g.bytes_per_pixel();
            Seq::new(
                outgoing.len(),
                |i: int|
                    if i >= g.size() {
                        0
                    } else if i % row < cut {
                        incoming[i + (g.shown() - cut)]
                    } else {
                        outgoing[i - cut]
                    },
            )
        },
        SwipeDirection::Up => {
            let cut = (g.height - off) * row;
            Seq::new(
                outgoing.len(),
                |i: int|
                    if i < cut {
                        outgoing[i + off * row]
                    } else {
                        incoming[i - cut]
                    },
            )
        },
        SwipeDirection::Down => {
            let cut = off * row;
            Seq::new(
                outgoing.len(),
                |i: int|
                    if i < cut {
                        incoming[i + (g.height - off) * row]
                    } else {
                        outgoing[i - cut]
                    },
            )
        },
    }
}

/// What to do next while the slide runs.
pub enum SlideStep {
    /// The captures do not fit each other: show nothing.
    Skip,
    /// Show this frame, then ask again.
    Frame(Vec<u8>),
    /// The time is up: leave the incoming capture showing.
    Finished,
}

/// Appends the bytes of `src` from `lo` up to `hi`.
fn append_range(out: &mut Vec<u8>, src: &[u8], lo: usize, hi: usize)
    requires
        lo <= hi <= src@.len(),
    ensures
        final(out)@ == old(out)@ + src@.subrange(lo as int, hi as int),
{
    out.extend_from_slice(vstd::slice::slice_subrange(src, lo, hi));
    assert(out@ =~= old(out)@ + src@.subrange(lo as int, hi as int));
}

/// Joins, row by row, `cut` bytes of `head` from column `skip` on with the
/// first bytes of the same row of `tail`, and pads with zeros up to `total`.
fn splice_rows(
    head: &[u8],
    skip: usize,
    cut: usize,
    tail: &[u8],
    row: usize,
    rows: usize,
    total: usize,
) -> (out: Vec<u8>)
    requires
        row > 0,
        skip + cut <= row,
        row * rows <= total,
        row * rows <= head@.len(),
        row * rows <= tail@.len(),
    ensures
        out@ == Seq::new(
            total as nat,
            |i: int|
                if i >= row * rows {
                    0
                } else if i % (row as int) < cut {
                    head@[i + skip]
                } else {
                    tail@[i - cut]
                },
        ),
{
    let ghost whole = Seq::new(
        total as nat,
        |i: int|
            if i >= row * rows {
                0u8
            } else if i % (row as int) < cut {
                head@[i + skip]
            } else {
                tail@[i - cut]
            },
    );
    let mut out: Vec<u8> = Vec::with_capacity(total);
    let mut y: usize = 0;
    while y < rows
        invariant
            y <= rows,
            row > 0,
            skip + cut <= row,
            row * rows <= total,
            row * rows <= head@.len(),
            row * rows <= tail@.len(),
            out@.len() == row * y,
            whole == Seq::new(
                total as nat,
                |i: int|
                    if i >= row * rows {
                        0u8
                    } else if i % (row as int) < cut {
                        head@[i + skip]
                    } else {
                        tail@[i - cut]
                    },
            ),
            forall|i: int| 0 <= i < row * y ==> out@[i] == whole[i],
        decreases rows - y,
    {
        assert(row * y + row <= row * rows && row * (y + 1) == row * y + row && 0 <= row * y)
            by (nonlinear_arith)
            requires
                0 <= y < rows,
                row > 0,
        ;
        assert(head@.len() == head.len() && tail@.len() == tail.len());
        let start: usize = row * y;
        let ghost before = out@;
        append_range(&mut out, head, start + skip, start + skip + cut);
        append_range(&mut out, tail, start, start + (row - cut));
        assert forall|i: int| 0 <= i < row * (y + 1) implies out@[i] == whole[i] by {
            if i < row * y {
                assert(out@[i] == before[i]);
            } else {
                lemma_fundamental_div_mod_converse(i, row as int, y as int, i - row * y);
                assert(i % (row as int) == i - row * y);
            }
        }
        y = y + 1;
    }
    while out.len() < total
        invariant
            row * rows <= out@.len() <= total,
            whole.len() == total,
            forall|i: int| row * rows <= i < total ==> whole[i] == 0,
            forall|i: int| 0 <= i < out@.len() ==> out@[i] == whole[i],
        decreases total - out@.len(),
    {
        out.push(0);
    }
    assert(out@ =~= whole);
    out
}

/// Composes the frame shown when the slide has moved by `offset`.
///
/// Swiping left, the outgoing screen exits to the left and the incoming one
/// enters from the right, and so on for the other directions.
pub fn slide_frame(
    g: &Geometry,
    outgoing: &[u8],
    incoming: &[u8],
    direction: SwipeDirection,
    offset: usize,
) -> (frame: Vec<u8>)
    requires
        slidable(*g, outgoing@, incoming@),
        composable(*g, outgoing@.len(), direction, offset as nat),
    ensures
        frame@ == frame_of(*g, outgoing@, incoming@, direction, offset as nat),
{
    let row: usize = g.line_length as usize;
    let height: usize = g.height as usize;
    let width: usize = g.width as usize;
    let total: usize = outgoing.len();
    let bpp: usize = if g.bits_per_pixel < 8 {
        1
    } else {
        (g.bits_per_pixel / 8) as usize
    };
    proof {
        assert(incoming@.len() == incoming.len());
        assert(outgoing@.len() == outgoing.len());
    }
    match direction {
        SwipeDirection::Left | SwipeDirection::Right => {
            let off: usize = if offset < width {
                offset
            } else {
                width
            };
            if height == 0 {
                let frame = splice_rows(outgoing, 0, 0, incoming, row, 0, total);
                assert(g.line_length * g.height == 0) by (nonlinear_arith)
                    requires
                        g.height == 0,
                ;
                assert(frame@ =~= frame_of(*g, outgoing@, incoming@, direction, offset as nat));
                return frame;
            }
            if matches!(direction, SwipeDirection::Left) {
                assert(off * bpp + (width - off) * bpp == width * bpp && 0 <= off * bpp && 0 <= (
                width - off) * bpp) by (nonlinear_arith)
                    requires
                        0 <= off <= width,
                        bpp >= 0,
                ;
                let skip: usize = off * bpp;
                let cut: usize = (width - off) * bpp;
                splice_rows(outgoing, skip, cut, incoming, row, height, total)
            } else {
                assert(0 <= off * bpp) by (nonlinear_arith)
                    requires
                        0 <= off,
                        bpp >= 0,
                ;
                assert(off * bpp <= width * bpp && width * bpp <= u32::MAX * u32::MAX)
                    by (nonlinear_arith)
                    requires
                        0 <= off <= width <= u32::MAX,
                        0 <= bpp <= u32::MAX,
                ;
                let visible: u64 = width as u64 * bpp as u64;
                let shown: usize = if visible < row as u64 {
                    visible as usize
                } else {
                    row
                };
                let cut: usize = off * bpp;
                splice_rows(incoming, shown - cut, cut, outgoing, row, height, total)
            }
        },
        SwipeDirection::Up | SwipeDirection::Down => {
            let off: usize = if offset < height {
                offset
            } else {
                height
            };
            assert(off * row + (height - off) * row == row * height && 0 <= off * row && 0 <= (height
                - off) * row) by (nonlinear_arith)
                requires
                    0 <= off <= height,
                    row >= 0,
            ;
            let moved: usize = off * row;
            let kept: usize = (height - off) * row;
            let mut frame: Vec<u8> = Vec::with_capacity(total);
            if matches!(direction, SwipeDirection::Up) {
                append_range(&mut frame, outgoing, moved, total);
                append_range(&mut frame, incoming, 0, moved);
            } else {
                append_range(&mut frame, incoming, kept, total);
                append_range(&mut frame, outgoing, 0, kept);
            }
            assert(frame@ =~= frame_of(*g, outgoing@, incoming@, direction, offset as nat));
            frame
        },
    }
}

/// Whether the two captures can be slid between.
pub fn can_slide(g: &Geometry, outgoing: &[u8], incoming: &[u8]) -> (fits: bool)
    ensures
        fits == slidable(*g, outgoing@, incoming@),
        fits == (g.line_length != 0 && g.width != 0 && outgoing@.len() == incoming@.len()
            && outgoing@.len() >= g.line_length * g.height),
{
    assert(g.line_length * g.height <= u64::MAX) by (nonlinear_arith)
        requires
            0 <= g.line_length <= u32::MAX,
            0 <= g.height <= u32::MAX,
    ;
    g.line_length != 0 && g.width != 0 && outgoing.len() == incoming.len() && outgoing.len() as u64
        >= g.line_length as u64 * g.height as u64
}

/// One turn of the slide from `outgoing` to `incoming`, `elapsed_nanos` after
/// its start and moved by `offset` columns or rows.
///
/// Captures that do not fit each other (the incoming terminal may have another
/// resolution) are not animated.
pub fn slide_in(
    g: &Geometry,
    outgoing: &[u8],
    incoming: &[u8],
    direction: SwipeDirection,
    elapsed_nanos: u128,
    offset: usize,
) -> (step: SlideStep)
    requires
        slidable(*g, outgoing@, incoming@) && elapsed_nanos < DURATION_NANOS ==> composable(
            *g,
            outgoing@.len(),
            direction,
            offset as nat,
        ),
    ensures
        match step {
            SlideStep::Skip => !slidable(*g, outgoing@, incoming@),
            SlideStep::Frame(frame) => {
                &&& slidable(*g, outgoing@, incoming@)
                &&& elapsed_nanos < DURATION_NANOS
                &&& frame@ == frame_of(*g, outgoing@, incoming@, direction, offset as nat)
            },
            SlideStep::Finished => {
                &&& slidable(*g, outgoing@, incoming@)
                &&& elapsed_nanos >= DURATION_NANOS
            },
        },
        asks_for(
            step,
            asked(*g, outgoing@, incoming@, direction, elapsed_nanos as nat, offset as nat),
            *g,
            outgoing@,
            incoming@,
            direction,
        ),
{
    if !can_slide(g, outgoing, incoming) {
        return SlideStep::Skip;
    }
    if elapsed_nanos >= DURATION_NANOS {
        return SlideStep::Finished;
    }
    SlideStep::Frame(slide_frame(g, outgoing, incoming, direction, offset))
}

/// Whether the slide goes on after a step, given whether the picture that the
/// step asked for could be shown. It ends at the first frame that could not be:
/// then the incoming capture is not shown either.
pub fn slide_next(step: &SlideStep, shown: bool) -> (go_on: bool)
    ensures
        go_on == (step is Frame && shown),
{
    matches!(step, SlideStep::Frame(_)) && shown
}

/// How far a slide that has moved by `moved` has moved when its easing says
/// `eased`: so far, but never past the end and never back.
pub open spec fn farther(g: Geometry, direction: SwipeDirection, moved: nat, eased: nat) -> nat {
    if clipped(g, direction, eased) < moved {
        moved
    } else {
        clipped(g, direction, eased)
    }
}

/// How far the slide moves on from `moved`, given what its easing says.
pub fn slide_offset(g: &Geometry, direction: SwipeDirection, moved: usize, eased: usize) -> (
    offset: usize)
    ensures
        offset == farther(*g, direction, moved as nat, eased as nat),
        ({
            let end = if direction is Left || direction is Right {
                g.width
            } else {
                g.height
            };
            let wanted = if eased < end {
                eased as int
            } else {
                end as int
            };
            offset == if wanted < moved {
                moved as int
            } else {
                wanted
            }
        }),
{
    let end: usize = match direction {
        SwipeDirection::Left | SwipeDirection::Right => g.width as usize,
        SwipeDirection::Up | SwipeDirection::Down => g.height as usize,
    };
    let offset: usize = if eased < end {
        eased
    } else {
        end
    };
    if offset < moved {
        moved
    } else {
        offset
    }
}

/// One turn of a slide: when it comes, how far its easing says the slide has
/// moved by then, and whether what it asks for can be shown.
pub struct Turn {
    pub elapsed_nanos: nat,
    pub eased: nat,
    pub shown: bool,
}

/// What a turn of a slide asks to be shown.
pub enum Asked {
    Nothing,
    /// The frame of this offset.
    Frame(nat),
    Incoming,
}

/// What a turn of a slide asks to be shown.
pub open spec fn asked(
    g: Geometry,
    outgoing: Seq<u8>,
    incoming: Seq<u8>,
    direction: SwipeDirection,
    elapsed_nanos: nat,
    offset: nat,
) -> Asked {
    if !slidable(g, outgoing, incoming) {
        Asked::Nothing
    } else if elapsed_nanos < DURATION_NANOS {
        Asked::Frame(clipped(g, direction, offset))
    } else {
        Asked::Incoming
    }
}

/// The step asks for just that.
pub open spec fn asks_for(
    step: SlideStep,
    what: Asked,
    g: Geometry,
    outgoing: Seq<u8>,
    incoming: Seq<u8>,
    direction: SwipeDirection,
) -> bool {
    match step {
        SlideStep::Skip => what is Nothing,
        SlideStep::Frame(frame) => what matches Asked::Frame(offset) && frame@ == frame_of(
            g,
            outgoing,
            incoming,
            direction,
            offset,
        ),
        SlideStep::Finished => what is Incoming,
    }
}

/// What a slide that has moved by `moved` goes on to ask to be shown, in order,
/// in the given turns.
pub open spec fn slide_run(
    g: Geometry,
    outgoing: Seq<u8>,
    incoming: Seq<u8>,
    direction: SwipeDirection,
    moved: nat,
    turns: Seq<Turn>,
) -> Seq<Asked>
    decreases turns.len(),
{
    if turns.len() == 0 {
        Seq::empty()
    } else {
        let offset = farther(g, direction, moved, turns[0].eased);
        let first = asked(g, outgoing, incoming, direction, turns[0].elapsed_nanos, offset);
        if first is Nothing {
            Seq::empty()
        } else if first is Frame && turns[0].shown {
            seq![first] + slide_run(g, outgoing, incoming, direction, offset, turns.drop_first())
        } else {
            seq![first]
        }
    }
}

/// The time of its turn decides whether a thing shown is a frame, and each but
/// the last is a frame that could be shown.
proof fn lemma_slide_run(
    g: Geometry,
    outgoing: Seq<u8>,
    incoming: Seq<u8>,
    direction: SwipeDirection,
    moved: nat,
    turns: Seq<Turn>,
)
    ensures
        ({
            let run = slide_run(g, outgoing, incoming, direction, moved, turns);
            &&& run.len() <= turns.len()
            &&& forall|i: int|
                0 <= i < run.len() ==> (#[trigger] run[i]) !is Nothing && (run[i] is Frame
                    <==> turns[i].elapsed_nanos < DURATION_NANOS)
            &&& forall|i: int|
                0 <= i < run.len() - 1 ==> (#[trigger] run[i]) is Frame && turns[i].shown
        }),
    decreases turns.len(),
{
    if turns.len() > 0 {
        let rest = turns.drop_first();
        let offset = farther(g, direction, moved, turns[0].eased);
        let run = slide_run(g, outgoing, incoming, direction, moved, turns);
        let then = slide_run(g, outgoing, incoming, direction, offset, rest);
        lemma_slide_run(g, outgoing, incoming, direction, offset, rest);
        assert forall|i: int| 0 <= i < run.len() implies (#[trigger] run[i]) !is Nothing && (run[i]
            is Frame <==> turns[i].elapsed_nanos < DURATION_NANOS) by {
            if i > 0 {
                assert(run[i] == then[i - 1] && turns[i] == rest[i - 1]);
            }
        }
        assert forall|i: int| 0 <= i < run.len() - 1 implies (#[trigger] run[i]) is Frame
            && turns[i].shown by {
            if i > 0 {
                assert(run[i] == then[i - 1] && turns[i] == rest[i - 1]);
            }
        }
    }
}

/// The first frame that could not be shown is the last thing that a slide asks
/// to be shown.
pub proof fn law_slide_stops_at_failure(
    g: Geometry,
    outgoing: Seq<u8>,
    incoming: Seq<u8>,
    direction: SwipeDirection,
    moved: nat,
    turns: Seq<Turn>,
    k: int,
)
    requires
        0 <= k < turns.len(),
        !turns[k].shown,
    ensures
        slide_run(g, outgoing, incoming, direction, moved, turns).len() <= k + 1,
{
    lemma_slide_run(g, outgoing, incoming, direction, moved, turns);
    let run = slide_run(g, outgoing, incoming, direction, moved, turns);
    if run.len() > k + 1 {
        assert(run[k] is Frame);
    }
}

/// Further offsets are clipped to further ones, and none past the end of the
/// slide.
pub proof fn law_clipped_in_order(g: Geometry, direction: SwipeDirection, a: nat, b: nat)
    requires
        a <= b,
    ensures
        clipped(g, direction, a) <= clipped(g, direction, b) <= extent(g, direction),
{
}

/// A slide never moves back, whatever its easing says: each frame has moved at
/// least as far as those before it, and none past the end.
pub proof fn law_slide_never_moves_back(
    g: Geometry,
    outgoing: Seq<u8>,
    incoming: Seq<u8>,
    direction: SwipeDirection,
    moved: nat,
    turns: Seq<Turn>,
    i: int,
    j: int,
)
    requires
        moved <= extent(g, direction),
        0 <= i <= j < slide_run(g, outgoing, incoming, direction, moved, turns).len(),
        slide_run(g, outgoing, incoming, direction, moved, turns)[i] is Frame,
        slide_run(g, outgoing, incoming, direction, moved, turns)[j] is Frame,
    ensures
        ({
            let run = slide_run(g, outgoing, incoming, direction, moved, turns);
            moved <= run[i]->Frame_0 <= run[j]->Frame_0 <= extent(g, direction)
        }),
    decreases turns.len(),
{
    let rest = turns.drop_first();
    let offset = farther(g, direction, moved, turns[0].eased);
    let run = slide_run(g, outgoing, incoming, direction, moved, turns);
    let then = slide_run(g, outgoing, incoming, direction, offset, rest);
    if j > 0 {
        assert(run[j] == then[j - 1]);
        if i > 0 {
            assert(run[i] == then[i - 1]);
            law_slide_never_moves_back(
                g,
                outgoing,
                incoming,
                direction,
                offset,
                rest,
                i - 1,
                j - 1,
            );
        } else {
            law_slide_never_moves_back(
                g,
                outgoing,
                incoming,
                direction,
                offset,
                rest,
                j - 1,
                j - 1,
            );
        }
    }
}

/// As long as the easing itself does not go back, each frame has moved as far as
/// the easing says at its turn, up to the end.
pub proof fn law_slide_follows_easing(
    g: Geometry,
    outgoing: Seq<u8>,
    incoming: Seq<u8>,
    direction: SwipeDirection,
    moved: nat,
    turns: Seq<Turn>,
    i: int,
)
    requires
        forall|a: int, b: int| 0 <= a <= b < turns.len() ==> turns[a].eased <= turns[b].eased,
        turns.len() > 0 ==> moved <= clipped(g, direction, turns[0].eased),
        0 <= i < slide_run(g, outgoing, incoming, direction, moved, turns).len(),
        slide_run(g, outgoing, incoming, direction, moved, turns)[i] is Frame,
    ensures
        slide_run(g, outgoing, incoming, direction, moved, turns)[i]->Frame_0 == clipped(
            g,
            direction,
            turns[i].eased,
        ),
    decreases turns.len(),
{
    if i > 0 {
        let rest = turns.drop_first();
        let offset = farther(g, direction, moved, turns[0].eased);
        let run = slide_run(g, outgoing, incoming, direction, moved, turns);
        let then = slide_run(g, outgoing, incoming, direction, offset, rest);
        assert(run[i] == then[i - 1]);
        lemma_slide_run(g, outgoing, incoming, direction, moved, turns);
        assert(turns[0].eased <= turns[1].eased);
        law_slide_follows_easing(g, outgoing, incoming, direction, offset, rest, i - 1);
    }
}

/// Every frame of a slide comes before its time is up. At the first turn after
/// that, the incoming capture is shown, once, and the slide is over.
pub proof fn law_slide_ends_on_time(
    g: Geometry,
    outgoing: Seq<u8>,
    incoming: Seq<u8>,
    direction: SwipeDirection,
    moved: nat,
    turns: Seq<Turn>,
    i: int,
)
    requires
        0 <= i < slide_run(g, outgoing, incoming, direction, moved, turns).len(),
    ensures
        ({
            let run = slide_run(g, outgoing, incoming, direction, moved, turns);
            &&& run[i] is Frame <==> turns[i].elapsed_nanos < DURATION_NANOS
            &&& run[i] is Incoming <==> turns[i].elapsed_nanos >= DURATION_NANOS
            &&& run[i] is Incoming ==> i == run.len() - 1
        }),
{
    lemma_slide_run(g, outgoing, incoming, direction, moved, turns);
}

/// A slide whose frames can all be shown goes on until its time is up.
pub proof fn law_slide_goes_on(
    g: Geometry,
    outgoing: Seq<u8>,
    incoming: Seq<u8>,
    direction: SwipeDirection,
    moved: nat,
    turns: Seq<Turn>,
)
    requires
        slidable(g, outgoing, incoming),
        forall|i: int|
            0 <= i < turns.len() - 1 ==> (#[trigger] turns[i]).shown && turns[i].elapsed_nanos
                < DURATION_NANOS,
    ensures
        slide_run(g, outgoing, incoming, direction, moved, turns).len() == turns.len(),
    decreases turns.len(),
{
    if turns.len() > 0 {
        let rest = turns.drop_first();
        let offset = farther(g, direction, moved, turns[0].eased);
        if turns.len() == 1 {
            assert(slide_run(g, outgoing, incoming, direction, offset, rest).len() == 0);
        } else {
            assert(turns[0].shown);
            assert forall|i: int| 0 <= i < rest.len() - 1 implies (#[trigger] rest[i]).shown
                && rest[i].elapsed_nanos < DURATION_NANOS by {
                assert(rest[i] == turns[i + 1]);
            }
            law_slide_goes_on(g, outgoing, incoming, direction, offset, rest);
        }
    }
}

/// The direction that undoes a swipe.
pub open spec fn opposite(direction: SwipeDirection) -> SwipeDirection {
    match direction {
        SwipeDirection::Left => SwipeDirection::Right,
        SwipeDirection::Right => SwipeDirection::Left,
        SwipeDirection::Up => SwipeDirection::Down,
        SwipeDirection::Down => SwipeDirection::Up,
    }
}

/// A slide starts on the outgoing screen: its first frame is the outgoing one,
/// byte for byte. Swiping left, this holds of the pixels only, not of padding
/// at the end of a row.
pub proof fn law_starts_on_outgoing(
    g: Geometry,
    outgoing: Seq<u8>,
    incoming: Seq<u8>,
    direction: SwipeDirection,
    i: int,
)
    requires
        slidable(g, outgoing, incoming),
        composable(g, outgoing.len(), direction, 0),
        0 <= i < g.size(),
        direction is Left ==> i % (g.line_length as int) < g.visible(),
    ensures
        frame_of(g, outgoing, incoming, direction, 0)[i] == outgoing[i],
{
    assert((g.height - 0) * g.line_length == g.size()) by (nonlinear_arith)
        requires
            g.size() == g.line_length * g.height,
    ;
    assert(0 * g.bytes_per_pixel() == 0 && 0 * g.line_length == 0) by (nonlinear_arith);
}

/// A slide ends on the incoming screen: its last frame is the incoming one, byte
/// for byte, so that it is what the terminal itself goes on to show. Swiping
/// right, this holds of the pixels only, not of padding at the end of a row.
pub proof fn law_ends_on_incoming(
    g: Geometry,
    outgoing: Seq<u8>,
    incoming: Seq<u8>,
    direction: SwipeDirection,
    offset: nat,
    i: int,
)
    requires
        slidable(g, outgoing, incoming),
        composable(g, outgoing.len(), direction, offset),
        offset >= extent(g, direction),
        0 <= i < g.size(),
        direction is Right ==> i % (g.line_length as int) < g.visible(),
    ensures
        frame_of(g, outgoing, incoming, direction, offset)[i] == incoming[i],
{
    assert((g.width - g.width) * g.bytes_per_pixel() == 0 && (g.height - g.height) * g.line_length
        == 0) by (nonlinear_arith);
    assert(g.height * g.line_length == g.size()) by (nonlinear_arith)
        requires
            g.size() == g.line_length * g.height,
    ;
    vstd::arithmetic::div_mod::lemma_mod_bound(i, g.line_length as int);
}

/// Sliding one way from one screen to another is sliding the other way back,
/// run in reverse.
pub proof fn law_reverse_slide(
    g: Geometry,
    outgoing: Seq<u8>,
    incoming: Seq<u8>,
    direction: SwipeDirection,
    offset: nat,
)
    requires
        slidable(g, outgoing, incoming),
        composable(g, outgoing.len(), direction, offset),
        composable(
            g,
            outgoing.len(),
            opposite(direction),
            (extent(g, direction) - offset) as nat,
        ),
        offset <= extent(g, direction),
    ensures
        frame_of(g, outgoing, incoming, direction, offset) == frame_of(
            g,
            incoming,
            outgoing,
            opposite(direction),
            (extent(g, direction) - offset) as nat,
        ),
{
    let rest = (extent(g, direction) - offset) as nat;
    let a = frame_of(g, outgoing, incoming, direction, offset);
    let b = frame_of(g, incoming, outgoing, opposite(direction), rest);
    let bpp = g.bytes_per_pixel();
    let row = g.line_length as int;
    if g.height == 0 {
        assert(g.size() == 0) by (nonlinear_arith)
            requires
                g.height == 0,
                g.size() == g.line_length * g.height,
        ;
    }
    assert(offset * bpp + (g.width - offset) * bpp == g.width * bpp) by (nonlinear_arith);
    assert(rest * bpp + (g.width - rest) * bpp == g.width * bpp) by (nonlinear_arith);
    assert(offset * row + (g.height - offset) * row == g.height * row) by (nonlinear_arith);
    assert(rest * row + (g.height - rest) * row == g.height * row) by (nonlinear_arith);
    match direction {
        SwipeDirection::Left | SwipeDirection::Right => {
            assert((g.width - offset) * bpp == rest * bpp);
            assert((g.width - rest) * bpp == offset * bpp);
        },
        SwipeDirection::Up | SwipeDirection::Down => {
            assert((g.height - offset) * row == rest * row);
            assert((g.height - rest) * row == offset * row);
        },
    }
    assert(a =~= b);
}

/// Up to `offset`, the incoming screen has pushed the outgoing one aside: the
/// pixels of a row of a sideways frame are a window, one row wide, onto the
/// pixels of the two rows laid side by side.
pub proof fn law_row_is_window(
    g: Geometry,
    outgoing: Seq<u8>,
    incoming: Seq<u8>,
    direction: SwipeDirection,
    offset: nat,
    y: int,
)
    requires
        slidable(g, outgoing, incoming),
        g.visible() <= g.line_length,
        direction is Left || direction is Right,
        offset <= g.width,
        0 <= y < g.height,
    ensures
        ({
            let from = y * g.line_length;
            let wide = g.visible();
            let frame = frame_of(g, outgoing, incoming, direction, offset);
            let out_row = outgoing.subrange(from, from + wide);
            let in_row = incoming.subrange(from, from + wide);
            let moved = offset * g.bytes_per_pixel();
            frame.subrange(from, from + wide) == if direction is Left {
                (out_row + in_row).subrange(moved, moved + wide)
            } else {
                (in_row + out_row).subrange(wide - moved, wide - moved + wide)
            }
        }),
{
    let row = g.line_length as int;
    let from = y * row;
    let wide = g.visible();
    let bpp = g.bytes_per_pixel();
    let moved = offset * bpp;
    let frame = frame_of(g, outgoing, incoming, direction, offset);
    let out_row = outgoing.subrange(from, from + wide);
    let in_row = incoming.subrange(from, from + wide);
    assert(from + row <= g.size() && 0 <= from) by (nonlinear_arith)
        requires
            from == y * row,
            g.size() == g.line_length * g.height,
            row == g.line_length,
            0 <= y < g.height,
    ;
    assert(offset * bpp + (g.width - offset) * bpp == g.width * bpp && 0 <= offset * bpp && 0 <= (
    g.width - offset) * bpp) by (nonlinear_arith)
        requires
            0 <= offset <= g.width,
            bpp >= 0,
    ;
    let window = if direction is Left {
        (out_row + in_row).subrange(moved, moved + wide)
    } else {
        (in_row + out_row).subrange(wide - moved, wide - moved + wide)
    };
    assert forall|c: int| 0 <= c < wide implies frame.subrange(from, from + wide)[c]
        == window[c] by {
        lemma_fundamental_div_mod_converse(from + c, row, y, c);
        assert((from + c) % row == c);
    }
    assert(frame.subrange(from, from + wide) =~= window);
}

/// A frame that moves up or down is a window, one screen high, onto the two
/// screens stacked on each other.
pub proof fn law_screen_is_window(
    g: Geometry,
    outgoing: Seq<u8>,
    incoming: Seq<u8>,
    direction: SwipeDirection,
    offset: nat,
)
    requires
        slidable(g, outgoing, incoming),
        composable(g, outgoing.len(), direction, offset),
        direction is Up || direction is Down,
        offset <= g.height,
    ensures
        ({
            let moved = offset * g.line_length;
            frame_of(g, outgoing, incoming, direction, offset) == if direction is Up {
                (outgoing + incoming).subrange(moved, moved + g.size())
            } else {
                (incoming + outgoing).subrange(g.size() - moved, 2 * g.size() - moved)
            }
        }),
{
    let row = g.line_length as int;
    let moved = offset * row;
    assert(moved + (g.height - offset) * row == g.size() && 0 <= moved && 0 <= (g.height - offset)
        * row) by (nonlinear_arith)
        requires
            moved == offset * row,
            g.size() == row * g.height,
            0 <= offset <= g.height,
            row >= 0,
    ;
    assert(frame_of(g, outgoing, incoming, direction, offset) =~= if direction is Up {
        (outgoing + incoming).subrange(moved, moved + g.size())
    } else {
        (incoming + outgoing).subrange(g.size() - moved, 2 * g.size() - moved)
    });
}

/// Two captures that fill a geometry without padding can be slid between, in
/// every direction and at every offset.
pub proof fn law_captures_can_slide(
    g: Geometry,
    outgoing: Seq<u8>,
    incoming: Seq<u8>,
    direction: SwipeDirection,
    offset: nat,
)
    requires
        g.tight(),
        g.width != 0,
        outgoing.len() == g.size(),
        incoming.len() == g.size(),
    ensures
        slidable(g, outgoing, incoming),
        composable(g, outgoing.len(), direction, offset),
{
    let bpp = g.bytes_per_pixel();
    let off = clipped(g, direction, offset) as int;
    assert(g.width * bpp >= 1) by (nonlinear_arith)
        requires
            g.width >= 1,
            bpp >= 1,
    ;
    if direction is Right {
        assert(off * bpp <= g.width * bpp) by (nonlinear_arith)
            requires
                off <= g.width,
                bpp >= 0,
        ;
    }
}

/// How long the slide takes and how long a console gets to settle.
pub proof fn law_timing()
    ensures
        DURATION_NANOS == 260 * 1_000_000,
        SETTLE_MILLIS == 60,
{
}

/// A pixel takes as many whole bytes as its bits fill, and at least one.
pub proof fn law_bytes_per_pixel(g: Geometry)
    ensures
        g.bits_per_pixel < 8 ==> g.bytes_per_pixel() == 1,
        g.bits_per_pixel >= 8 ==> 8 * g.bytes_per_pixel() <= g.bits_per_pixel < 8
            * g.bytes_per_pixel() + 8,
        g.visible() == g.width * g.bytes_per_pixel(),
        g.size() == g.line_length * g.height,
        g.tight() <==> g.width * g.bytes_per_pixel() == g.line_length,
        g.shown() <= g.visible() && g.shown() <= g.line_length,
        g.shown() == g.visible() || g.shown() == g.line_length,
{
}

/// There is something to slide between exactly when there are pixels, and the two
/// captures are of one size and fill the geometry.
pub proof fn law_slidable(g: Geometry, outgoing: Seq<u8>, incoming: Seq<u8>)
    ensures
        slidable(g, outgoing, incoming) <==> g.line_length > 0 && g.width > 0 && outgoing.len()
            == incoming.len() && outgoing.len() >= g.line_length * g.height,
{
}

/// The slide moves by columns sideways and by rows up and down, up to the end.
pub proof fn law_clipped(g: Geometry, offset: nat)
    ensures
        offset <= g.width ==> clipped(g, SwipeDirection::Left, offset) == offset && clipped(
            g,
            SwipeDirection::Right,
            offset,
        ) == offset,
        offset >= g.width ==> clipped(g, SwipeDirection::Left, offset) == g.width && clipped(
            g,
            SwipeDirection::Right,
            offset,
        ) == g.width,
        offset <= g.height ==> clipped(g, SwipeDirection::Up, offset) == offset && clipped(
            g,
            SwipeDirection::Down,
            offset,
        ) == offset,
        offset >= g.height ==> clipped(g, SwipeDirection::Up, offset) == g.height && clipped(
            g,
            SwipeDirection::Down,
            offset,
        ) == g.height,
{
}

/// Sideways, a frame can be composed whenever the pixels fit the rows, swiping
/// right also as long as those that have entered do; up and down, whenever the
/// captures hold the rows and nothing else.
pub proof fn law_composable(g: Geometry, len: nat, direction: SwipeDirection, offset: nat)
    requires
        direction is Left ==> g.height == 0 || g.width * g.bytes_per_pixel() <= g.line_length,
        direction is Right ==> g.height == 0 || g.width * g.bytes_per_pixel() <= g.line_length
            || offset * g.bytes_per_pixel() <= g.line_length,
        direction is Up || direction is Down ==> len == g.line_length * g.height,
    ensures
        composable(g, len, direction, offset),
{
    if direction is Right && g.width * g.bytes_per_pixel() <= g.line_length {
        let off = clipped(g, direction, offset) as int;
        let bpp = g.bytes_per_pixel();
        assert(off * bpp <= g.width * bpp) by (nonlinear_arith)
            requires
                off <= g.width,
                bpp >= 0,
        ;
    } else if direction is Right {
        let off = clipped(g, direction, offset) as int;
        let bpp = g.bytes_per_pixel();
        assert(off * bpp <= offset * bpp) by (nonlinear_arith)
            requires
                off <= offset,
                bpp >= 0,
        ;
    }
}

/// Swiping left by `offset` columns, each row is the outgoing one from that
/// column on, and after its last pixel the incoming one from its start.
pub proof fn law_left_frame(
    g: Geometry,
    outgoing: Seq<u8>,
    incoming: Seq<u8>,
    offset: nat,
    y: int,
    c: int,
)
    requires
        slidable(g, outgoing, incoming),
        offset <= g.width,
        0 <= y < g.height,
        0 <= c < g.line_length,
    ensures
        ({
            let at = y * g.line_length + c;
            let kept = (g.width - offset) * g.bytes_per_pixel();
            let frame = frame_of(g, outgoing, incoming, SwipeDirection::Left, offset);
            &&& frame.len() == outgoing.len()
            &&& 0 <= at < frame.len()
            &&& c < kept ==> frame[at] == outgoing[at + offset * g.bytes_per_pixel()]
            &&& c >= kept ==> frame[at] == incoming[at - kept]
        }),
{
    lemma_place(g, y, c);
}

/// Swiping right by `offset` columns, each row is the last so many pixels of the
/// incoming one, and then the outgoing one from its start.
pub proof fn law_right_frame(
    g: Geometry,
    outgoing: Seq<u8>,
    incoming: Seq<u8>,
    offset: nat,
    y: int,
    c: int,
)
    requires
        slidable(g, outgoing, incoming),
        g.width * g.bytes_per_pixel() <= g.line_length,
        offset <= g.width,
        0 <= y < g.height,
        0 <= c < g.line_length,
    ensures
        ({
            let at = y * g.line_length + c;
            let entered = offset * g.bytes_per_pixel();
            let frame = frame_of(g, outgoing, incoming, SwipeDirection::Right, offset);
            &&& frame.len() == outgoing.len()
            &&& 0 <= at < frame.len()
            &&& c < entered ==> frame[at] == incoming[at + (g.width - offset)
                * g.bytes_per_pixel()]
            &&& c >= entered ==> frame[at] == outgoing[at - entered]
        }),
{
    lemma_place(g, y, c);
    let bpp = g.bytes_per_pixel();
    assert(offset * bpp + (g.width - offset) * bpp == g.width * bpp) by (nonlinear_arith);
}

/// Past the last row, a sideways frame is zero.
pub proof fn law_past_the_rows(
    g: Geometry,
    outgoing: Seq<u8>,
    incoming: Seq<u8>,
    direction: SwipeDirection,
    offset: nat,
    i: int,
)
    requires
        direction is Left || direction is Right,
        g.line_length * g.height <= i < outgoing.len(),
    ensures
        frame_of(g, outgoing, incoming, direction, offset)[i] == 0,
{
}

/// Where column `c` of row `y` stands.
proof fn lemma_place(g: Geometry, y: int, c: int)
    requires
        0 <= y < g.height,
        0 <= c < g.line_length,
    ensures
        0 <= y * g.line_length + c < g.size(),
        (y * g.line_length + c) % (g.line_length as int) == c,
{
    let row = g.line_length as int;
    assert(0 <= y * row && y * row + row <= row * g.height) by (nonlinear_arith)
        requires
            0 <= y < g.height,
            row >= 0,
    ;
    lemma_fundamental_div_mod_converse(y * row + c, row, y, c);
}

/// Swiping up or down by `offset` rows, each row of the frame is a whole row of
/// one of the screens: up, the outgoing rows from that one on and then the
/// incoming ones from the first; down, the last so many incoming rows and then
/// the outgoing ones from the first.
pub proof fn law_rows_move(
    g: Geometry,
    outgoing: Seq<u8>,
    incoming: Seq<u8>,
    offset: nat,
    y: int,
    c: int,
)
    requires
        slidable(g, outgoing, incoming),
        outgoing.len() == g.line_length * g.height,
        offset <= g.height,
        0 <= y < g.height,
        0 <= c < g.line_length,
    ensures
        ({
            let row = g.line_length as int;
            let up = frame_of(g, outgoing, incoming, SwipeDirection::Up, offset);
            let down = frame_of(g, outgoing, incoming, SwipeDirection::Down, offset);
            &&& up.len() == outgoing.len() && down.len() == outgoing.len()
            &&& y + offset < g.height ==> up[y * row + c] == outgoing[(y + offset) * row + c]
            &&& y + offset >= g.height ==> up[y * row + c] == incoming[(y + offset - g.height) * row
                + c]
            &&& y < offset ==> down[y * row + c] == incoming[(y + g.height - offset) * row + c]
            &&& y >= offset ==> down[y * row + c] == outgoing[(y - offset) * row + c]
        }),
{
    let row = g.line_length as int;
    let h = g.height as int;
    let o = offset as int;
    lemma_place(g, y, c);
    assert((y + o) * row == y * row + o * row && (y + o - h) * row == y * row - (h - o) * row && (y
        + h - o) * row == y * row + (h - o) * row && (y - o) * row == y * row - o * row)
        by (nonlinear_arith);
    if y + o < h {
        assert(y * row + row <= (h - o) * row) by (nonlinear_arith)
            requires
                y + 1 <= h - o,
                row >= 0,
        ;
    } else {
        assert((h - o) * row <= y * row) by (nonlinear_arith)
            requires
                y >= h - o,
                row >= 0,
        ;
    }
    if y < o {
        assert(y * row + row <= o * row) by (nonlinear_arith)
            requires
                y + 1 <= o,
                row >= 0,
        ;
    } else {
        assert(o * row <= y * row) by (nonlinear_arith)
            requires
                y >= o,
                row >= 0,
        ;
    }
}

/// Offsets past the end give the last frame.
pub proof fn law_past_the_end(
    g: Geometry,
    outgoing: Seq<u8>,
    incoming: Seq<u8>,
    direction: SwipeDirection,
    offset: nat,
)
    ensures
        (direction is Left || direction is Right) && offset >= g.width ==> frame_of(
            g,
            outgoing,
            incoming,
            direction,
            offset,
        ) == frame_of(g, outgoing, incoming, direction, g.width as nat),
        (direction is Up || direction is Down) && offset >= g.height ==> frame_of(
            g,
            outgoing,
            incoming,
            direction,
            offset,
        ) == frame_of(g, outgoing, incoming, direction, g.height as nat),
{
    assert(clipped(g, direction, extent(g, direction)) == extent(g, direction));
}

/// Where the pictures of an animated switch come from: each console from the
/// framebuffer, each X server from itself, and the console that an X server is
/// left for from before.
pub proof fn law_where_pictures_come_from(from: VtKind, to: VtKind)
    requires
        animation(from, to) is Some,
    ensures
        ({
            let (leave, enter) = animation(from, to)->0;
            &&& leave is Console <==> from is Text
            &&& leave is XServer <==> from is X
            &&& enter is XServerOrLast <==> to is X
            &&& enter is ConsoleAfterSwitch <==> from is Text && to is Text
            &&& enter is LastConsole <==> from is X && to is Text
        }),
{
}

/// Swiping right over rows that are shorter than their pixels, the end of the
/// incoming row comes first, as far as the row goes.
pub proof fn law_right_frame_of_short_rows(
    g: Geometry,
    outgoing: Seq<u8>,
    incoming: Seq<u8>,
    offset: nat,
    y: int,
    c: int,
)
    requires
        slidable(g, outgoing, incoming),
        g.width * g.bytes_per_pixel() > g.line_length,
        offset <= g.width,
        offset * g.bytes_per_pixel() <= g.line_length,
        0 <= y < g.height,
        0 <= c < g.line_length,
    ensures
        ({
            let at = y * g.line_length + c;
            let entered = offset * g.bytes_per_pixel();
            let frame = frame_of(g, outgoing, incoming, SwipeDirection::Right, offset);
            &&& c < entered ==> frame[at] == incoming[at + g.line_length - entered]
            &&& c >= entered ==> frame[at] == outgoing[at - entered]
        }),
{
    lemma_place(g, y, c);
}

/// A slide moves to where its easing says, up to the end; where that would be
/// back, it stays.
pub proof fn law_moves_or_stays(g: Geometry, direction: SwipeDirection, moved: nat, eased: nat)
    ensures
        eased >= moved && eased <= extent(g, direction) ==> farther(g, direction, moved, eased)
            == eased,
        eased >= extent(g, direction) >= moved ==> farther(g, direction, moved, eased) == extent(
            g,
            direction,
        ),
        eased <= moved ==> farther(g, direction, moved, eased) == moved,
        direction is Left || direction is Right ==> extent(g, direction) == g.width,
        direction is Up || direction is Down ==> extent(g, direction) == g.height,
{
}

} // verus!
