//! Showing the transition from double-buffered framebuffers of our own, with
//! page flips at the vertical blank. The console's framebuffer is never
//! touched.
//!
//! The device calls are made by the program; what they are, in which order
//! they come and what their outcomes lead to is decided here.
use vstd::prelude::*;

use crate::snapshot::{converted, packed, PixFmt, Snapshot};

verus! {

/// How many buffers the display flips between.
pub const BUFFERS: usize = 2;

/// How long a page flip may take.
pub const FLIP_NANOS: u64 = 200_000_000;

/// What can be wrong with the display.
#[derive(Debug, Clone, Copy, PartialEq, Eq, Structural)]
pub enum KmsError {
    /// No connected output of the card is showing anything.
    NoActiveCrtc,
    /// No card could be opened.
    NoCard,
    /// A page flip did not happen in time.
    FlipTimedOut,
}

impl KmsError {
    /// The text that goes with the error.
    pub fn message(self) -> (text: &'static str)
        ensures
            text@ == match self {
                KmsError::NoActiveCrtc => "no active CRTC"@,
                KmsError::NoCard => "no DRM card with an active display"@,
                KmsError::FlipTimedOut => "page flip timed out"@,
            },
    {
        match self {
            KmsError::NoActiveCrtc => "no active CRTC",
            KmsError::NoCard => "no DRM card with an active display",
            KmsError::FlipTimedOut => "page flip timed out",
        }
    }
}

/// Colour depth and bits per pixel of a framebuffer for images of a format.
pub open spec fn depth_and_bpp(fmt: PixFmt) -> (u32, u32) {
    match fmt {
        PixFmt::Xrgb8888 => (24, 32),
        PixFmt::Rgb565 => (16, 16),
    }
}

/// Colour depth and bits per pixel of a framebuffer for images of format
/// `fmt`.
pub fn framebuffer_depth(fmt: PixFmt) -> (d: (u32, u32))
    ensures
        d == depth_and_bpp(fmt),
        d.1 == 8 * fmt.bpp(),
        fmt is Xrgb8888 ==> d == (24u32, 32u32),
        fmt is Rgb565 ==> d == (16u32, 16u32),
{
    match fmt {
        PixFmt::Xrgb8888 => (24, 32),
        PixFmt::Rgb565 => (16, 16),
    }
}

/// A mapped framebuffer.
#[derive(Debug, Clone, Copy, PartialEq, Eq, Structural)]
pub struct Buffer {
    /// The framebuffer's handle.
    pub fb: u32,
    /// Bytes of mapped memory.
    pub len: usize,
    /// Bytes from one row to the next.
    pub pitch: usize,
}

/// The display that is taken over, and the buffers shown on it.
pub struct Kms {
    pub crtc: u32,
    pub conns: Vec<u32>,
    pub width: u32,
    pub height: u32,
    pub bufs: Vec<Buffer>,
    /// The buffer to draw into: the one that is not on screen.
    pub back: usize,
}

/// Row `y`, of `row` bytes and `y` times `pitch` bytes into the memory, covers
/// byte `i`.
pub open spec fn row_covers(y: int, row: nat, pitch: nat, i: int) -> bool {
    y * pitch <= i < y * pitch + row
}

/// The last of the first `rows` rows, of `row` bytes each and `pitch` bytes
/// apart, that covers byte `i`.
pub open spec fn covering_row(rows: nat, row: nat, pitch: nat, i: int) -> Option<nat>
    decreases rows,
{
    if rows == 0 {
        None
    } else {
        let y = (rows - 1) as nat;
        if row_covers(y as int, row, pitch, i) {
            Some(y)
        } else {
            covering_row(y, row, pitch, i)
        }
    }
}

/// `mem` after the first `rows` rows of `data` were drawn on it, each `pitch`
/// bytes after the one before. Where rows overlap, the later one shows.
pub open spec fn drawn(mem: Seq<u8>, data: Seq<u8>, rows: nat, row: nat, pitch: nat) -> Seq<u8> {
    Seq::new(
        mem.len(),
        |i: int|
            match covering_row(rows, row, pitch, i) {
                Some(y) => data[y * row + (i - y * pitch)],
                None => mem[i],
            },
    )
}

/// The other of the two buffers.
pub open spec fn other(back: usize) -> usize {
    if back == 0 {
        1
    } else {
        0
    }
}

impl Kms {
    /// Both buffers are there, and one of them is the back buffer.
    pub open spec fn well_formed(&self) -> bool {
        &&& self.bufs@.len() == BUFFERS
        &&& self.back < BUFFERS
    }

    /// The handles of our own framebuffers.
    pub open spec fn handles(&self) -> Seq<u32> {
        self.bufs@.map_values(|b: Buffer| b.fb)
    }

    /// Everything but the buffers and which of them is drawn into is as in
    /// `before`.
    pub open spec fn same_output(&self, before: Kms) -> bool {
        &&& self.crtc == before.crtc
        &&& self.conns@ == before.conns@
        &&& self.width == before.width
        &&& self.height == before.height
    }

    /// The buffer to draw into.
    pub fn back_buffer(&self) -> (b: Buffer)
        requires
            self.well_formed(),
        ensures
            b == self.bufs@[self.back as int],
    {
        self.bufs[self.back]
    }

    /// True while one of our framebuffers is what the CRTC is scanning out.
    pub fn is_showing_ours(&self, scanout: Option<u32>) -> (ours: bool)
        ensures
            ours == (scanout is Some && self.handles().contains(scanout->0)),
            ours == exists|i: int|
                0 <= i < self.bufs@.len() && scanout == Some((#[trigger] self.bufs@[i]).fb),
    {
        let fb = match scanout {
            Some(fb) => fb,
            None => return false,
        };
        let n: usize = self.bufs.len();
        let mut i: usize = 0;
        while i < n
            invariant
                i <= n,
                n == self.bufs@.len(),
                scanout == Some(fb),
                forall|j: int| 0 <= j < i ==> self.handles()[j] != fb,
                forall|j: int| 0 <= j < i ==> (#[trigger] self.bufs@[j]).fb != fb,
            decreases n - i,
        {
            assert(self.handles()[i as int] == self.bufs@[i as int].fb);
            if self.bufs[i].fb == fb {
                return true;
            }
            i = i + 1;
        }
        assert(self.handles().len() == n);
        false
    }

    /// The image in format `fmt`, provided that it fills the display.
    pub fn fit(&self, image: &Snapshot, fmt: PixFmt) -> (fitted: Option<Snapshot>)
        ensures
            match fitted {
                Some(s) => {
                    &&& image.width == self.width && image.height == self.height
                    &&& s.width == self.width && s.height == self.height
                    &&& s.fmt == fmt
                    &&& s.data@ == converted(image.data@, image.fmt, fmt)
                    &&& image.well_formed() ==> s.well_formed()
                },
                None => image.width != self.width || image.height != self.height,
            },
    {
        if image.width == self.width && image.height == self.height {
            Some(image.to_fmt(fmt))
        } else {
            None
        }
    }

    /// Draws an image on the memory `mem` of the back buffer, from its first
    /// row on.
    pub fn draw_snapshot(&self, mem: &mut [u8], img: &Snapshot)
        requires
            self.well_formed(),
            old(mem)@.len() == self.bufs@[self.back as int].len,
            img.stride() <= usize::MAX,
            img.height * img.stride() <= img.data@.len(),
            img.height > 0 ==> (img.height - 1) * self.bufs@[self.back as int].pitch + img.stride()
                <= old(mem)@.len(),
        ensures
            final(mem)@ == drawn(
                old(mem)@,
                img.data@,
                img.height as nat,
                img.stride(),
                self.bufs@[self.back as int].pitch as nat,
            ),
    {
        let pitch: usize = self.bufs[self.back].pitch;
        let row: usize = img.row_bytes();
        let rows: usize = img.height as usize;
        let ghost before = mem@;
        let mut y: usize = 0;
        assert(mem@ =~= drawn(before, img.data@, 0, row as nat, pitch as nat));
        while y < rows
            invariant
                y <= rows,
                rows == img.height,
                row == img.stride(),
                rows * row <= img.data@.len(),
                rows > 0 ==> (rows - 1) * pitch + row <= before.len(),
                before.len() == mem@.len(),
                mem@ == drawn(before, img.data@, y as nat, row as nat, pitch as nat),
            decreases rows - y,
        {
            proof {
                assert(mem@.len() == mem.len() && img.data@.len() == img.data.len());
                assert(0 <= y * pitch <= (rows - 1) * pitch) by (nonlinear_arith)
                    requires
                        0 <= y <= rows - 1,
                        pitch >= 0,
                ;
                assert(0 <= y * row && y * row + row <= rows * row) by (nonlinear_arith)
                    requires
                        0 <= y < rows,
                        row >= 0,
                ;
            }
            let from: usize = y * row;
            let to: usize = y * pitch;
            let ghost start = mem@;
            let mut c: usize = 0;
            while c < row
                invariant
                    c <= row,
                    from + row <= img.data@.len(),
                    to + row <= mem@.len(),
                    mem@.len() == start.len(),
                    img.data@.len() == img.data.len(),
                    start.len() <= usize::MAX,
                    forall|i: int|
                        0 <= i < start.len() ==> mem@[i] == if to <= i < to + c {
                            img.data@[from + (i - to)]
                        } else {
                            start[i]
                        },
                decreases row - c,
            {
                mem[to + c] = img.data[from + c];
                c = c + 1;
            }
            assert(mem@ =~= drawn(before, img.data@, (y + 1) as nat, row as nat, pitch as nat)) by {
                assert forall|i: int| 0 <= i < before.len() implies mem@[i] == drawn(
                    before,
                    img.data@,
                    (y + 1) as nat,
                    row as nat,
                    pitch as nat,
                )[i] by {
                    assert(start[i] == drawn(
                        before,
                        img.data@,
                        y as nat,
                        row as nat,
                        pitch as nat,
                    )[i]);
                }
            }
            y = y + 1;
        }
    }
}

/// What to do next while waiting.
#[derive(Debug, Clone, Copy, PartialEq, Eq, Structural)]
pub enum Wait {
    /// Stop, with this answer.
    Over(bool),
    /// Sleep for this many milliseconds, then try again.
    Sleep(u64),
}

/// What to do next while setting up the buffers.
#[derive(Debug, Clone, Copy, PartialEq, Eq, Structural)]
pub enum SetupStep {
    CreateDumb,
    AddFramebuffer,
    DestroyDumb,
    MapDumb,
    Ready,
    Fail,
}

/// What became of the last step of the setup.
#[derive(Debug, Clone, Copy, PartialEq, Eq, Structural)]
pub enum SetupEvent {
    DumbCreated(bool),
    FramebufferAdded(bool),
    DumbDestroyed,
    Mapped(Option<Buffer>),
}

/// The buffers kept after one more outcome.
pub open spec fn kept_after(bufs: Seq<Buffer>, event: SetupEvent) -> Seq<Buffer> {
    match event {
        SetupEvent::Mapped(Some(b)) => bufs.push(b),
        _ => bufs,
    }
}

/// The step after an outcome that leaves the given buffers.
pub open spec fn step_after(bufs: Seq<Buffer>, event: SetupEvent) -> SetupStep {
    match event {
        SetupEvent::DumbCreated(true) => SetupStep::AddFramebuffer,
        SetupEvent::FramebufferAdded(true) => SetupStep::MapDumb,
        SetupEvent::FramebufferAdded(false) => SetupStep::DestroyDumb,
        SetupEvent::Mapped(Some(_)) => if bufs.len() < BUFFERS {
            SetupStep::CreateDumb
        } else {
            SetupStep::Ready
        },
        _ => SetupStep::Fail,
    }
}

/// What to do next to show the back buffer.
#[derive(Debug, Clone, Copy, PartialEq, Eq, Structural)]
pub enum PresentStep {
    /// It is on screen.
    Shown,
    /// The flip failed: set the CRTC to this framebuffer instead.
    SetCrtc(u32),
}

/// What happened last while waiting for a page flip.
pub enum FlipEvent {
    /// So much time is left.
    Clock(u64),
    /// `poll` returned this.
    Polled(i32),
    /// Events were read; for each, whether it is a page flip.
    Received(Vec<bool>),
    /// The events could not be read.
    ReadFailed,
}

/// What to do next while waiting for a page flip.
#[derive(Debug, Clone, Copy, PartialEq, Eq, Structural)]
pub enum FlipStep {
    /// Give up: no time is left.
    TimedOut,
    /// Poll for at most this many milliseconds.
    Poll(i32),
    /// Give up: polling failed.
    OsError,
    /// Give up: the events could not be read.
    ReadError,
    /// Look at the clock again.
    Retry,
    /// Read the pending events.
    Receive,
    /// The flip has happened.
    Flipped,
}

/// What an event while waiting for a page flip leads to.
pub open spec fn flip_step(event: FlipEvent) -> FlipStep {
    match event {
        FlipEvent::Clock(left) => if left == 0 {
            FlipStep::TimedOut
        } else {
            FlipStep::Poll((left / 1_000_000) as i32)
        },
        FlipEvent::Polled(n) => if n < 0 {
            FlipStep::OsError
        } else if n == 0 {
            FlipStep::Retry
        } else {
            FlipStep::Receive
        },
        FlipEvent::Received(flips) => if flips@.contains(true) {
            FlipStep::Flipped
        } else {
            FlipStep::Retry
        },
        FlipEvent::ReadFailed => FlipStep::ReadError,
    }
}

impl FlipStep {
    /// The wait is over.
    pub open spec fn is_end(self) -> bool {
        self is TimedOut || self is OsError || self is ReadError || self is Flipped
    }
}

impl Kms {
    /// The display of the given size, before it has any buffer.
    pub fn setup(crtc: u32, conns: Vec<u32>, size: (u16, u16)) -> (kms: Kms)
        ensures
            kms.crtc == crtc,
            kms.conns@ == conns@,
            kms.width == size.0,
            kms.height == size.1,
            kms.bufs@ == Seq::<Buffer>::empty(),
            kms.back == 0,
    {
        Kms {
            crtc,
            conns,
            width: size.0 as u32,
            height: size.1 as u32,
            bufs: Vec::new(),
            back: 0,
        }
    }

    /// Goes on with the setup of the buffers. A buffer that no framebuffer
    /// could be made of is destroyed at once; those that are mapped are kept.
    pub fn setup_next(&mut self, event: SetupEvent) -> (step: SetupStep)
        ensures
            final(self).same_output(*old(self)),
            final(self).crtc == old(self).crtc,
            final(self).conns@ == old(self).conns@,
            final(self).width == old(self).width,
            final(self).height == old(self).height,
            final(self).back == old(self).back,
            event matches SetupEvent::Mapped(Some(b)) ==> final(self).bufs@ == old(self).bufs@.push(
                b,
            ),
            !(event is Mapped) || event == SetupEvent::Mapped(None) ==> final(self).bufs@ == old(
                self,
            ).bufs@,
            final(self).bufs@ == kept_after(old(self).bufs@, event),
            step == step_after(final(self).bufs@, event),
    {
        match event {
            SetupEvent::DumbCreated(true) => SetupStep::AddFramebuffer,
            SetupEvent::FramebufferAdded(true) => SetupStep::MapDumb,
            SetupEvent::FramebufferAdded(false) => SetupStep::DestroyDumb,
            SetupEvent::Mapped(Some(b)) => {
                self.bufs.push(b);
                if self.bufs.len() < BUFFERS {
                    SetupStep::CreateDumb
                } else {
                    SetupStep::Ready
                }
            },
            _ => SetupStep::Fail,
        }
    }

    /// What to do after an attempt to become DRM master.
    pub fn acquire_master(locked: bool, expired: bool) -> (wait: Wait)
        ensures
            wait == if locked {
                Wait::Over(true)
            } else if expired {
                Wait::Over(false)
            } else {
                Wait::Sleep(1)
            },
    {
        if locked {
            Wait::Over(true)
        } else if expired {
            Wait::Over(false)
        } else {
            Wait::Sleep(1)
        }
    }

    /// What to do after a look at whether someone else (the console, X) has
    /// put their own framebuffer back.
    pub fn wait_released(&self, scanout: Option<u32>, expired: bool) -> (wait: Wait)
        ensures
            wait == Wait::Over(true) <==> forall|i: int|
                0 <= i < self.bufs@.len() ==> scanout != Some((#[trigger] self.bufs@[i]).fb),
            wait == if !(scanout is Some && self.handles().contains(scanout->0)) {
                Wait::Over(true)
            } else if expired {
                Wait::Over(false)
            } else {
                Wait::Sleep(2)
            },
    {
        if !self.is_showing_ours(scanout) {
            Wait::Over(true)
        } else if expired {
            Wait::Over(false)
        } else {
            Wait::Sleep(2)
        }
    }

    /// Makes the other buffer the back buffer.
    fn swap(&mut self)
        requires
            old(self).well_formed(),
        ensures
            final(self).well_formed(),
            final(self).same_output(*old(self)),
            final(self).bufs@ == old(self).bufs@,
            final(self).back == other(old(self).back),
    {
        let back: usize = self.back;
        assert(back < 2 ==> back ^ 1 == if back == 0 {
            1usize
        } else {
            0usize
        }) by (bit_vector);
        self.back = back ^ 1;
    }

    /// Takes in whether the back buffer was flipped to. Page flips can't
    /// change the pixel format and aren't supported by every driver; setting
    /// the CRTC with the same mode still works.
    pub fn present(&mut self, flipped: bool) -> (step: PresentStep)
        requires
            old(self).well_formed(),
        ensures
            final(self).well_formed(),
            final(self).same_output(*old(self)),
            final(self).crtc == old(self).crtc,
            final(self).conns@ == old(self).conns@,
            final(self).width == old(self).width,
            final(self).height == old(self).height,
            flipped ==> final(self).back == 1 - old(self).back,
            final(self).bufs@ == old(self).bufs@,
            final(self).back == if flipped {
                other(old(self).back)
            } else {
                old(self).back
            },
            step == if flipped {
                PresentStep::Shown
            } else {
                PresentStep::SetCrtc(old(self).bufs@[old(self).back as int].fb)
            },
    {
        if flipped {
            self.swap();
            PresentStep::Shown
        } else {
            PresentStep::SetCrtc(self.bufs[self.back].fb)
        }
    }

    /// Takes in whether the CRTC was set to the back buffer. Returns whether
    /// it is on screen.
    pub fn present_set(&mut self, set: bool) -> (shown: bool)
        requires
            old(self).well_formed(),
        ensures
            final(self).well_formed(),
            final(self).same_output(*old(self)),
            final(self).crtc == old(self).crtc,
            final(self).conns@ == old(self).conns@,
            final(self).width == old(self).width,
            final(self).height == old(self).height,
            set ==> final(self).back == 1 - old(self).back,
            final(self).bufs@ == old(self).bufs@,
            final(self).back == if set {
                other(old(self).back)
            } else {
                old(self).back
            },
            shown == set,
    {
        if set {
            self.swap();
        }
        set
    }

    /// One turn of the wait for a page flip.
    pub fn wait_flip(event: &FlipEvent) -> (step: FlipStep)
        requires
            event matches FlipEvent::Clock(left) ==> left <= FLIP_NANOS,
        ensures
            step == flip_step(*event),
            *event matches FlipEvent::Clock(left) ==> if left == 0 {
                step is TimedOut
            } else {
                step matches FlipStep::Poll(ms) && ms * 1_000_000 <= left < (ms + 1) * 1_000_000
            },
            *event matches FlipEvent::Polled(n) ==> {
                &&& n < 0 ==> step is OsError
                &&& n == 0 ==> step is Retry
                &&& n > 0 ==> step is Receive
            },
            *event matches FlipEvent::Received(flips) ==> {
                &&& step is Flipped || step is Retry
                &&& step is Flipped <==> exists|i: int| 0 <= i < flips@.len() && flips@[i]
            },
            *event is ReadFailed ==> step is ReadError,
    {
        match event {
            FlipEvent::Clock(left) => {
                if *left == 0 {
                    FlipStep::TimedOut
                } else {
                    FlipStep::Poll((*left / 1_000_000) as i32)
                }
            },
            FlipEvent::Polled(n) => {
                if *n < 0 {
                    FlipStep::OsError
                } else if *n == 0 {
                    FlipStep::Retry
                } else {
                    FlipStep::Receive
                }
            },
            FlipEvent::Received(flips) => {
                if any_flip(flips) {
                    FlipStep::Flipped
                } else {
                    FlipStep::Retry
                }
            },
            FlipEvent::ReadFailed => FlipStep::ReadError,
        }
    }
}

/// Whether one of the events is a page flip.
fn any_flip(flips: &Vec<bool>) -> (any: bool)
    ensures
        any == flips@.contains(true),
{
    let n: usize = flips.len();
    let mut i: usize = 0;
    while i < n
        invariant
            i <= n,
            n == flips@.len(),
            forall|j: int| 0 <= j < i ==> !flips@[j],
        decreases n - i,
    {
        if flips[i] {
            return true;
        }
        i = i + 1;
    }
    false
}

/// Rows that do not overlap are all on screen: row `y` of the image stands at
/// `y` pitches into the memory. The last row is there in any case.
pub proof fn law_rows_are_drawn(
    mem: Seq<u8>,
    data: Seq<u8>,
    rows: nat,
    row: nat,
    pitch: nat,
    y: int,
)
    requires
        row <= pitch || y == rows - 1,
        0 <= y < rows,
        rows * row <= data.len(),
        (rows - 1) * pitch + row <= mem.len(),
    ensures
        drawn(mem, data, rows, row, pitch).subrange(y * pitch, y * pitch + row) == data.subrange(
            y * row,
            y * row + row,
        ),
{
    let after = drawn(mem, data, rows, row, pitch);
    assert(0 <= y * pitch <= (rows - 1) * pitch) by (nonlinear_arith)
        requires
            0 <= y <= rows - 1,
            pitch >= 0,
    ;
    assert(0 <= y * row && y * row + row <= rows * row) by (nonlinear_arith)
        requires
            0 <= y < rows,
            row >= 0,
    ;
    assert forall|c: int| 0 <= c < row implies #[trigger] after.subrange(
        y * pitch,
        y * pitch + row,
    )[c] == data[y * row + c] by {
        lemma_covered(rows, row, pitch, y as nat, c);
    }
    assert(after.subrange(y * pitch, y * pitch + row) =~= data.subrange(y * row, y * row + row));
}

proof fn lemma_covered(rows: nat, row: nat, pitch: nat, y: nat, c: int)
    requires
        row <= pitch || y == rows - 1,
        y < rows,
        0 <= c < row,
    ensures
        covering_row(rows, row, pitch, y * pitch + c) == Some(y),
    decreases rows,
{
    let last = (rows - 1) as nat;
    if y < last {
        assert(y * pitch + pitch <= last * pitch) by (nonlinear_arith)
            requires
                y + 1 <= last,
                pitch >= 0,
        ;
        lemma_covered(last, row, pitch, y, c);
    }
}

/// Drawing leaves every byte alone that lies in no row of the image.
pub proof fn law_rest_is_untouched(
    mem: Seq<u8>,
    data: Seq<u8>,
    rows: nat,
    row: nat,
    pitch: nat,
    i: int,
)
    requires
        0 <= i < mem.len(),
        forall|y: int| 0 <= y < rows ==> !(#[trigger] row_covers(y, row, pitch, i)),
    ensures
        drawn(mem, data, rows, row, pitch)[i] == mem[i],
{
    lemma_uncovered(rows, row, pitch, i);
}

proof fn lemma_uncovered(rows: nat, row: nat, pitch: nat, i: int)
    requires
        forall|y: int| 0 <= y < rows ==> !(#[trigger] row_covers(y, row, pitch, i)),
    ensures
        covering_row(rows, row, pitch, i) is None,
    decreases rows,
{
    if rows > 0 {
        let y = rows - 1;
        assert(!row_covers(y, row, pitch, i));
        lemma_uncovered((rows - 1) as nat, row, pitch, i);
    }
}

/// Reading back the rows of an image that was drawn gives the image, unless the
/// rows overlap.
pub proof fn law_draw_then_read(
    mem: Seq<u8>,
    data: Seq<u8>,
    rows: nat,
    row: nat,
    pitch: nat,
    read: Seq<u8>,
)
    requires
        row <= pitch || rows <= 1,
        data.len() == rows * row,
        rows > 0 ==> (rows - 1) * pitch + row <= mem.len(),
        packed(read, drawn(mem, data, rows, row, pitch), 0, pitch, row, rows),
    ensures
        read == data,
{
    assert forall|i: int| 0 <= i < data.len() implies read[i] == data[i] by {
        assert(row > 0) by (nonlinear_arith)
            requires
                0 <= i < rows * row,
                row >= 0,
        ;
        let y = i / row as int;
        let c = i % row as int;
        vstd::arithmetic::div_mod::lemma_fundamental_div_mod(i, row as int);
        assert(0 <= y < rows && 0 <= c < row && i == y * row + c && y * row + row <= rows * row)
            by (nonlinear_arith)
            requires
                row > 0,
                0 <= i < rows * row,
                y == i / row as int,
                c == i % row as int,
                i == row * y + c,
        ;
        law_rows_are_drawn(mem, data, rows, row, pitch, y);
        assert(read.subrange(y * row, y * row + row)[c] == data.subrange(y * row, y * row + row)[c]);
    }
    assert(read =~= data);
}

/// Drawing never goes to the buffer that was shown last, and the next frame
/// after that is drawn where this one was.
pub proof fn law_buffers_alternate(back: usize)
    requires
        back < BUFFERS,
    ensures
        other(back) < BUFFERS,
        other(back) != back,
        other(other(back)) == back,
{
}

/// The setup after the given outcomes: the buffers kept, and what comes next.
pub open spec fn setup_after(events: Seq<SetupEvent>) -> (Seq<Buffer>, SetupStep)
    decreases events.len(),
{
    if events.len() == 0 {
        (Seq::empty(), SetupStep::CreateDumb)
    } else {
        let (bufs, _) = setup_after(events.drop_last());
        let kept = kept_after(bufs, events.last());
        (kept, step_after(kept, events.last()))
    }
}

/// The event is an outcome of the step.
pub open spec fn answers(event: SetupEvent, step: SetupStep) -> bool {
    match step {
        SetupStep::CreateDumb => event is DumbCreated,
        SetupStep::AddFramebuffer => event is FramebufferAdded,
        SetupStep::DestroyDumb => event is DumbDestroyed,
        SetupStep::MapDumb => event is Mapped,
        SetupStep::Ready | SetupStep::Fail => false,
    }
}

/// Each event is an outcome of the step that was due.
pub open spec fn setup_run(events: Seq<SetupEvent>) -> bool
    decreases events.len(),
{
    events.len() > 0 ==> {
        &&& setup_run(events.drop_last())
        &&& answers(events.last(), setup_after(events.drop_last()).1)
    }
}

/// How often a dumb buffer was created and not destroyed.
pub open spec fn dumbs_alive(events: Seq<SetupEvent>) -> int
    decreases events.len(),
{
    if events.len() == 0 {
        0
    } else {
        dumbs_alive(events.drop_last()) + match events.last() {
            SetupEvent::DumbCreated(true) => 1int,
            SetupEvent::DumbDestroyed => -1,
            _ => 0,
        }
    }
}

/// A setup is ready with exactly two buffers, and never keeps more.
pub proof fn law_setup_makes_two_buffers(events: Seq<SetupEvent>)
    requires
        setup_run(events),
    ensures
        setup_after(events).0.len() <= BUFFERS,
        setup_after(events).1 is Ready <==> setup_after(events).0.len() == BUFFERS,
    decreases events.len(),
{
    if events.len() > 0 {
        law_setup_makes_two_buffers(events.drop_last());
    }
}

/// Unless mapping one failed, every dumb buffer that is alive when a setup is
/// over is one of those kept.
pub proof fn law_setup_keeps_track(events: Seq<SetupEvent>)
    requires
        setup_run(events),
        events.len() > 0 ==> events.last() != SetupEvent::Mapped(None),
    ensures
        dumbs_alive(events) == setup_after(events).0.len() + match setup_after(events).1 {
            SetupStep::CreateDumb | SetupStep::Ready | SetupStep::Fail => 0int,
            _ => 1,
        },
    decreases events.len(),
{
    if events.len() > 0 {
        law_setup_keeps_track(events.drop_last());
    }
}

/// What a wait for a page flip has come to after the given events. It starts
/// with a look at the clock, and is over at the first event that ends it.
pub open spec fn waited(events: Seq<FlipEvent>) -> FlipStep
    decreases events.len(),
{
    if events.len() == 0 {
        FlipStep::Retry
    } else {
        let before = waited(events.drop_last());
        if before.is_end() {
            before
        } else {
            flip_step(events.last())
        }
    }
}

/// The event is an outcome of the step.
pub open spec fn follows(event: FlipEvent, step: FlipStep) -> bool {
    match step {
        FlipStep::Retry => event is Clock,
        FlipStep::Poll(_) => event is Polled,
        FlipStep::Receive => event is Received || event is ReadFailed,
        _ => false,
    }
}

/// Each event is an outcome of the step that was due.
pub open spec fn flip_wait(events: Seq<FlipEvent>) -> bool
    decreases events.len(),
{
    events.len() > 0 ==> {
        &&& flip_wait(events.drop_last())
        &&& follows(events.last(), waited(events.drop_last()))
    }
}

/// No event before the one at `k` ends a wait.
pub open spec fn undecided(events: Seq<FlipEvent>, k: int) -> bool {
    forall|j: int| 0 <= j < k ==> !flip_step(#[trigger] events[j]).is_end()
}

/// The event at `k` is the first that ends a wait, and ends it like this.
pub open spec fn decides(events: Seq<FlipEvent>, k: int, end: FlipStep) -> bool {
    0 <= k < events.len() && undecided(events, k) && flip_step(events[k]) == end
}

/// A wait is over as soon as an event ends it, and comes to what the first such
/// event makes of it.
pub proof fn law_wait_ends(events: Seq<FlipEvent>, end: FlipStep)
    requires
        end.is_end(),
    ensures
        waited(events) == end <==> exists|k: int| decides(events, k, end),
        waited(events).is_end() <==> !undecided(events, events.len() as int),
    decreases events.len(),
{
    if events.len() > 0 {
        let before = events.drop_last();
        let n = events.len() - 1;
        law_wait_ends(before, end);
        if waited(before) == end {
            let k = choose|k: int| decides(before, k, end);
            assert forall|j: int| 0 <= j < k implies !flip_step(#[trigger] events[j]).is_end() by {
                assert(events[j] == before[j]);
            }
            assert(decides(events, k, end));
        }
        if waited(before).is_end() {
            let j = choose|j: int|
                0 <= j < before.len() && flip_step(#[trigger] before[j]).is_end();
            assert(flip_step(events[j]).is_end());
            if exists|k: int| decides(events, k, end) {
                let k = choose|k: int| decides(events, k, end);
                assert(k <= j);
                assert forall|i: int| 0 <= i < k implies !flip_step(
                    #[trigger] before[i],
                ).is_end() by {
                    assert(events[i] == before[i]);
                }
                assert(decides(before, k, end));
            }
        } else {
            assert forall|j: int| 0 <= j < n implies !flip_step(#[trigger] events[j]).is_end() by {
                assert(events[j] == before[j]);
            }
            assert(waited(events) == flip_step(events[n]));
            if waited(events) == end {
                assert(decides(events, n, end));
            }
            if exists|k: int| decides(events, k, end) {
                let k = choose|k: int| decides(events, k, end);
                assert(k == n);
            }
        }
    }
}

/// The event is a batch that was read and holds a page flip.
pub open spec fn brings_flip(event: FlipEvent) -> bool {
    event matches FlipEvent::Received(flips) && flips@.contains(true)
}

/// The event is a clock that has run down.
pub open spec fn runs_down(event: FlipEvent) -> bool {
    event == FlipEvent::Clock(0)
}

/// The event is a poll or a read that failed.
pub open spec fn breaks_off(event: FlipEvent) -> bool {
    event is ReadFailed || (event matches FlipEvent::Polled(n) && n < 0)
}

/// A wait comes to a page flip exactly when one is read before the clock has run
/// down and before a poll or a read fails.
pub proof fn law_flip_arrives(events: Seq<FlipEvent>)
    ensures
        waited(events) is Flipped <==> exists|k: int|
            0 <= k < events.len() && brings_flip(#[trigger] events[k]) && forall|j: int|
                0 <= j < k ==> !runs_down(#[trigger] events[j]) && !breaks_off(events[j]),
{
    law_wait_ends(events, FlipStep::Flipped);
    if waited(events) is Flipped {
        let k = choose|k: int| decides(events, k, FlipStep::Flipped);
        assert forall|j: int| 0 <= j < k implies !runs_down(#[trigger] events[j]) && !breaks_off(
            events[j],
        ) by {
            assert(!flip_step(events[j]).is_end());
        }
        assert(brings_flip(events[k]));
    } else if exists|k: int|
        0 <= k < events.len() && brings_flip(#[trigger] events[k]) && forall|j: int|
            0 <= j < k ==> !runs_down(#[trigger] events[j]) && !breaks_off(events[j]) {
        let k = choose|k: int|
            0 <= k < events.len() && brings_flip(#[trigger] events[k]) && forall|j: int|
                0 <= j < k ==> !runs_down(#[trigger] events[j]) && !breaks_off(events[j]);
        lemma_first_flip(events, k);
    }
}

/// Where a page flip is read before anything else ends the wait, the first one
/// read ends it.
proof fn lemma_first_flip(events: Seq<FlipEvent>, k: int)
    requires
        0 <= k < events.len(),
        brings_flip(events[k]),
        forall|j: int| 0 <= j < k ==> !runs_down(#[trigger] events[j]) && !breaks_off(events[j]),
    ensures
        exists|i: int| decides(events, i, FlipStep::Flipped),
    decreases k,
{
    if undecided(events, k) {
        assert(decides(events, k, FlipStep::Flipped));
    } else {
        let j = choose|j: int| 0 <= j < k && flip_step(#[trigger] events[j]).is_end();
        assert(!runs_down(events[j]) && !breaks_off(events[j]));
        lemma_first_flip(events, j);
    }
}

/// A wait times out exactly when the clock has run down before a page flip is
/// read and before a poll or a read fails.
pub proof fn law_flip_times_out(events: Seq<FlipEvent>)
    ensures
        waited(events) is TimedOut <==> exists|k: int|
            0 <= k < events.len() && runs_down(#[trigger] events[k]) && forall|j: int|
                0 <= j < k ==> !brings_flip(#[trigger] events[j]) && !breaks_off(events[j]),
{
    law_wait_ends(events, FlipStep::TimedOut);
    if waited(events) is TimedOut {
        let k = choose|k: int| decides(events, k, FlipStep::TimedOut);
        assert forall|j: int| 0 <= j < k implies !brings_flip(#[trigger] events[j]) && !breaks_off(
            events[j],
        ) by {
            assert(!flip_step(events[j]).is_end());
        }
        assert(runs_down(events[k]));
    } else if exists|k: int|
        0 <= k < events.len() && runs_down(#[trigger] events[k]) && forall|j: int|
            0 <= j < k ==> !brings_flip(#[trigger] events[j]) && !breaks_off(events[j]) {
        let k = choose|k: int|
            0 <= k < events.len() && runs_down(#[trigger] events[k]) && forall|j: int|
                0 <= j < k ==> !brings_flip(#[trigger] events[j]) && !breaks_off(events[j]);
        lemma_first_run_down(events, k);
    }
}

/// Where the clock has run down before anything else ends the wait, its first
/// such reading ends it.
proof fn lemma_first_run_down(events: Seq<FlipEvent>, k: int)
    requires
        0 <= k < events.len(),
        runs_down(events[k]),
        forall|j: int| 0 <= j < k ==> !brings_flip(#[trigger] events[j]) && !breaks_off(events[j]),
    ensures
        exists|i: int| decides(events, i, FlipStep::TimedOut),
    decreases k,
{
    if undecided(events, k) {
        assert(decides(events, k, FlipStep::TimedOut));
    } else {
        let j = choose|j: int| 0 <= j < k && flip_step(#[trigger] events[j]).is_end();
        assert(!brings_flip(events[j]) && !breaks_off(events[j]));
        lemma_first_run_down(events, j);
    }
}

/// In a wait whose events are outcomes of the steps that were due, nothing comes
/// after the event that ends it.
pub proof fn law_nothing_after_the_end(events: Seq<FlipEvent>, k: int)
    requires
        flip_wait(events),
        0 <= k < events.len(),
        flip_step(events[k]).is_end(),
    ensures
        k == events.len() - 1,
        waited(events) == flip_step(events[k]),
    decreases events.len(),
{
    let before = events.drop_last();
    if k < events.len() - 1 {
        law_nothing_after_the_end(before, k);
        assert(waited(before).is_end());
    } else if waited(before).is_end() {
        assert(!follows(events.last(), waited(before)));
    }
}

/// Row `y` covers the bytes from `y` pitches on, as many as a row has.
pub proof fn law_row_covers(y: int, row: nat, pitch: nat, c: int)
    ensures
        row_covers(y, row, pitch, y * pitch + c) <==> 0 <= c < row,
{
}

/// Of the rows that cover a byte, the last one shows there.
pub proof fn law_last_row_shows(
    mem: Seq<u8>,
    data: Seq<u8>,
    rows: nat,
    row: nat,
    pitch: nat,
    y: int,
    c: int,
)
    requires
        0 <= y < rows,
        0 <= c < row,
        0 <= y * pitch + c < mem.len(),
        forall|z: int| y < z < rows ==> !(#[trigger] row_covers(z, row, pitch, y * pitch + c)),
    ensures
        drawn(mem, data, rows, row, pitch).len() == mem.len(),
        drawn(mem, data, rows, row, pitch)[y * pitch + c] == data[y * row + c],
{
    lemma_last_covering(rows, row, pitch, y as nat, y * pitch + c);
}

proof fn lemma_last_covering(rows: nat, row: nat, pitch: nat, y: nat, i: int)
    requires
        y < rows,
        y * pitch <= i < y * pitch + row,
        forall|z: int| y < z < rows ==> !(#[trigger] row_covers(z, row, pitch, i)),
    ensures
        covering_row(rows, row, pitch, i) == Some(y),
    decreases rows,
{
    if y < rows - 1 {
        assert(!row_covers(rows - 1, row, pitch, i));
        lemma_last_covering((rows - 1) as nat, row, pitch, y, i);
    }
}

/// What each event of a setup leads to, and what it leaves: two buffers are made,
/// one after the other, each created, added and mapped; one that can't be added
/// is destroyed.
pub proof fn law_setup_order(bufs: Seq<Buffer>, b: Buffer)
    ensures
        step_after(bufs, SetupEvent::DumbCreated(true)) is AddFramebuffer,
        step_after(bufs, SetupEvent::DumbCreated(false)) is Fail,
        step_after(bufs, SetupEvent::FramebufferAdded(true)) is MapDumb,
        step_after(bufs, SetupEvent::FramebufferAdded(false)) is DestroyDumb,
        step_after(bufs, SetupEvent::DumbDestroyed) is Fail,
        step_after(bufs, SetupEvent::Mapped(None)) is Fail,
        bufs.len() < 2 ==> step_after(bufs, SetupEvent::Mapped(Some(b))) is CreateDumb,
        bufs.len() >= 2 ==> step_after(bufs, SetupEvent::Mapped(Some(b))) is Ready,
        kept_after(bufs, SetupEvent::Mapped(Some(b))) == bufs.push(b),
        kept_after(bufs, SetupEvent::Mapped(None)) == bufs,
        kept_after(bufs, SetupEvent::DumbDestroyed) == bufs,
        kept_after(bufs, SetupEvent::DumbCreated(true)) == bufs,
        kept_after(bufs, SetupEvent::DumbCreated(false)) == bufs,
        kept_after(bufs, SetupEvent::FramebufferAdded(true)) == bufs,
        kept_after(bufs, SetupEvent::FramebufferAdded(false)) == bufs,
{
}

/// The clock is polled for as many whole milliseconds as are left, and ends the
/// wait at zero; each other event leads where it says.
pub proof fn law_flip_events(event: FlipEvent)
    requires
        event matches FlipEvent::Clock(left) ==> left <= 200 * 1_000_000,
    ensures
        FLIP_NANOS == 200 * 1_000_000,
        event matches FlipEvent::Clock(left) ==> {
            &&& left == 0 <==> flip_step(event) is TimedOut
            &&& left > 0 ==> (flip_step(event) matches FlipStep::Poll(ms) && ms * 1_000_000 <= left
                < (ms + 1) * 1_000_000)
        },
        brings_flip(event) <==> (event matches FlipEvent::Received(flips) && exists|i: int|
            0 <= i < flips@.len() && #[trigger] flips@[i]),
        brings_flip(event) <==> flip_step(event) is Flipped,
        runs_down(event) <==> flip_step(event) is TimedOut,
        breaks_off(event) <==> flip_step(event) is OsError || flip_step(event) is ReadError,
{
    if let FlipEvent::Received(flips) = event {
        if flips@.contains(true) {
            let i = flips@.index_of(true);
            assert(flips@[i]);
        }
        if exists|i: int| 0 <= i < flips@.len() && #[trigger] flips@[i] {
            let i = choose|i: int| 0 <= i < flips@.len() && #[trigger] flips@[i];
            assert(flips@[i] == true);
        }
    }
}

} // verus!
