//! Screen images with tightly packed rows.
use vstd::prelude::*;

verus! {

/// How a pixel is laid out in memory, little-endian.
#[derive(Debug, Clone, Copy, PartialEq, Eq, Structural)]
pub enum PixFmt {
    /// Four bytes: blue, green, red, unused.
    Xrgb8888,
    /// Two bytes: five bits of red, six of green, five of blue.
    Rgb565,
}

impl PixFmt {
    /// Bytes that one pixel takes.
    pub open spec fn bpp(self) -> nat {
        match self {
            PixFmt::Xrgb8888 => 4,
            PixFmt::Rgb565 => 2,
        }
    }

    pub fn bytes_per_pixel(self) -> (n: usize)
        ensures
            n == self.bpp(),
            self is Xrgb8888 ==> n == 4,
            self is Rgb565 ==> n == 2,
    {
        match self {
            PixFmt::Xrgb8888 => 4,
            PixFmt::Rgb565 => 2,
        }
    }
}

/// The sixteen-bit pixel that keeps the high five, six and five bits of red,
/// green and blue.
pub open spec fn rgb565(r: u8, g: u8, b: u8) -> int {
    (r as int / 8) * 2048 + (g as int / 4) * 32 + b as int / 8
}

/// A five-bit channel widened to eight bits, its high bits repeated below.
pub open spec fn widen5(c: int) -> int {
    c * 8 + c / 4
}

/// A six-bit channel widened to eight bits, its high bits repeated below.
pub open spec fn widen6(c: int) -> int {
    c * 4 + c / 16
}

/// The bytes of 32-bit pixels as 16-bit pixels. Bytes past the last whole
/// pixel are dropped.
pub open spec fn narrowed(data: Seq<u8>) -> Seq<u8> {
    Seq::new(
        data.len() / 4 * 2,
        |i: int|
            {
                let p = i / 2 * 4;
                let v = rgb565(data[p + 2], data[p + 1], data[p]);
                (if i % 2 == 0 { v % 256 } else { v / 256 }) as u8
            },
    )
}

/// The bytes of 16-bit pixels as 32-bit pixels, the unused byte zero. A byte
/// past the last whole pixel is dropped.
pub open spec fn widened(data: Seq<u8>) -> Seq<u8> {
    Seq::new(
        data.len() / 2 * 4,
        |i: int|
            {
                let p = i / 4 * 2;
                let v = data[p] + 256 * data[p + 1];
                (if i % 4 == 0 {
                    widen5(v % 32)
                } else if i % 4 == 1 {
                    widen6(v / 32 % 64)
                } else if i % 4 == 2 {
                    widen5(v / 2048)
                } else {
                    0
                }) as u8
            },
    )
}

/// Pixel data of format `from` as format `to`.
pub open spec fn converted(data: Seq<u8>, from: PixFmt, to: PixFmt) -> Seq<u8> {
    match (from, to) {
        (PixFmt::Xrgb8888, PixFmt::Rgb565) => narrowed(data),
        (PixFmt::Rgb565, PixFmt::Xrgb8888) => widened(data),
        _ => data,
    }
}

/// Every 61st byte is zero.
pub open spec fn looks_blank(data: Seq<u8>) -> bool {
    forall|i: int| 0 <= i < data.len() && i % 61 == 0 ==> data[i] == 0
}

/// `data` holds `rows` rows of `row` bytes each, cut out of `mem`, where the
/// first starts at `origin` and each next one `pitch` bytes further on.
pub open spec fn packed(
    data: Seq<u8>,
    mem: Seq<u8>,
    origin: nat,
    pitch: nat,
    row: nat,
    rows: nat,
) -> bool {
    &&& data.len() == rows * row
    &&& forall|y: int|
        0 <= y < rows ==> #[trigger] data.subrange(y * row, y * row + row) == mem.subrange(
            origin + y * pitch,
            origin + y * pitch + row,
        )
}

/// A screen image with tightly packed rows (no padding).
pub struct Snapshot {
    pub width: u32,
    pub height: u32,
    pub fmt: PixFmt,
    pub data: Vec<u8>,
}

impl Clone for Snapshot {
    fn clone(&self) -> (copy: Self)
        ensures
            copy.width == self.width,
            copy.height == self.height,
            copy.fmt == self.fmt,
            copy.data@ == self.data@,
    {
        Snapshot {
            width: self.width,
            height: self.height,
            fmt: self.fmt,
            data: self.data.clone(),
        }
    }
}

/// The two bytes of the sixteen-bit pixel for the given channels.
fn narrow_pixel(r: u8, g: u8, b: u8) -> (px: (u8, u8))
    ensures
        px.0 == rgb565(r, g, b) % 256,
        px.1 == rgb565(r, g, b) / 256,
{
    let v: u16 = ((r as u16 >> 3) << 11) | ((g as u16 >> 2) << 5) | (b as u16 >> 3);
    assert(v == (r as u16 / 8) * 2048 + (g as u16 / 4) * 32 + b as u16 / 8) by (bit_vector)
        requires
            v == ((r as u16 >> 3) << 11) | ((g as u16 >> 2) << 5) | (b as u16 >> 3),
    ;
    ((v % 256) as u8, (v / 256) as u8)
}

/// Blue, green and red of the sixteen-bit pixel made of the given two bytes.
fn widen_pixel(lo: u8, hi: u8) -> (px: (u8, u8, u8))
    ensures
        px.0 == widen5((lo + 256 * hi) % 32),
        px.1 == widen6((lo + 256 * hi) / 32 % 64),
        px.2 == widen5((lo + 256 * hi) / 2048),
{
    let v: u16 = lo as u16 + 256 * hi as u16;
    let r: u8 = ((v >> 11) & 0x1f) as u8;
    let g: u8 = ((v >> 5) & 0x3f) as u8;
    let b: u8 = (v & 0x1f) as u8;
    assert((v >> 11) & 0x1f == v / 2048) by (bit_vector);
    assert((v >> 5) & 0x3f == v / 32 % 64) by (bit_vector);
    assert(v & 0x1f == v % 32) by (bit_vector);
    assert(((b << 3) | (b >> 2)) == b * 8 + b / 4) by (bit_vector)
        requires
            b < 32,
    ;
    assert(((g << 2) | (g >> 4)) == g * 4 + g / 16) by (bit_vector)
        requires
            g < 64,
    ;
    assert(((r << 3) | (r >> 2)) == r * 8 + r / 4) by (bit_vector)
        requires
            r < 32,
    ;
    ((b << 3) | (b >> 2), (g << 2) | (g >> 4), (r << 3) | (r >> 2))
}

impl Snapshot {
    /// Bytes in one row.
    pub open spec fn stride(&self) -> nat {
        self.width as nat * self.fmt.bpp()
    }

    /// The pixel data holds `height` rows and nothing else.
    pub open spec fn well_formed(&self) -> bool {
        self.data@.len() == self.height as nat * self.stride()
    }

    pub fn row_bytes(&self) -> (n: usize)
        requires
            self.stride() <= usize::MAX,
        ensures
            n == self.stride(),
            self.fmt is Xrgb8888 ==> n == 4 * self.width,
            self.fmt is Rgb565 ==> n == 2 * self.width,
    {
        self.width as usize * self.fmt.bytes_per_pixel()
    }

    pub fn row(&self, y: usize) -> (bytes: &[u8])
        requires
            (y + 1) * self.stride() <= self.data@.len(),
        ensures
            bytes@ == self.data@.subrange(y * self.stride(), (y + 1) * self.stride()),
            self.fmt is Xrgb8888 ==> bytes@.len() == 4 * self.width,
            self.fmt is Rgb565 ==> bytes@.len() == 2 * self.width,
            forall|c: int|
                0 <= c < bytes@.len() ==> #[trigger] bytes@[c] == self.data@[y * bytes@.len() + c],
    {
        proof {
            let s = self.stride() as int;
            assert(self.data@.len() == self.data.len());
            assert(s <= (y + 1) * s) by (nonlinear_arith)
                requires
                    s >= 0,
                    y >= 0,
            ;
            assert(y * s + s == (y + 1) * s) by (nonlinear_arith);
            assert(0 <= y * s) by (nonlinear_arith)
                requires
                    s >= 0,
                    y >= 0,
            ;
        }
        let rb = self.row_bytes();
        let start: usize = y * rb;
        vstd::slice::slice_subrange(self.data.as_slice(), start, start + rb)
    }

    /// A backgrounded X server may hand back an all-black image instead of
    /// its last frame; treat that as "no usable capture".
    pub fn is_blank(&self) -> (blank: bool)
        ensures
            blank == looks_blank(self.data@),
            blank == forall|i: int|
                0 <= i < self.data@.len() && i % 61 == 0 ==> #[trigger] self.data@[i] == 0,
    {
        let n: usize = self.data.len();
        let mut i: usize = 0;
        while i < n
            invariant
                n == self.data@.len(),
                i % 61 == 0,
                forall|j: int| 0 <= j < i && j < n && j % 61 == 0 ==> self.data@[j] == 0,
            decreases n + 61 - i,
        {
            if self.data[i] != 0 {
                return false;
            }
            if n - i <= 61 {
                assert forall|j: int| 0 <= j < n && j % 61 == 0 implies self.data@[j] == 0 by {
                    if j > i {
                        assert(j - i >= 61);
                    }
                }
                return true;
            }
            i = i + 61;
        }
        true
    }

    /// The same image with its pixels in format `fmt`.
    pub fn to_fmt(&self, fmt: PixFmt) -> (out: Snapshot)
        ensures
            out.width == self.width,
            out.height == self.height,
            out.fmt == fmt,
            out.data@ == converted(self.data@, self.fmt, fmt),
            self.well_formed() ==> out.well_formed(),
            fmt == self.fmt ==> out.data@ == self.data@,
            self.fmt is Xrgb8888 && fmt is Rgb565 ==> {
                &&& out.data@.len() == self.data@.len() as int / 4 * 2
                &&& forall|p: int|
                    0 <= p < self.data@.len() as int / 4 ==> #[trigger] out.data@[2 * p] + 256
                        * out.data@[2 * p + 1] == (self.data@[4 * p + 2] as int / 8) * 2048 + (
                    self.data@[4 * p + 1] as int / 4) * 32 + self.data@[4 * p] as int / 8
            },
            self.fmt is Rgb565 && fmt is Xrgb8888 ==> {
                &&& out.data@.len() == self.data@.len() as int / 2 * 4
                &&& forall|p: int|
                    0 <= p < self.data@.len() as int / 2 ==> {
                        let v = self.data@[2 * p] + 256 * self.data@[2 * p + 1];
                        &&& #[trigger] out.data@[4 * p] == v % 32 * 8 + v % 32 / 4
                        &&& out.data@[4 * p + 1] == v / 32 % 64 * 4 + v / 32 % 64 / 16
                        &&& out.data@[4 * p + 2] == v / 2048 * 8 + v / 2048 / 4
                        &&& out.data@[4 * p + 3] == 0
                    }
            },
    {
        let data: Vec<u8> = match (self.fmt, fmt) {
            (PixFmt::Xrgb8888, PixFmt::Rgb565) => narrow(&self.data),
            (PixFmt::Rgb565, PixFmt::Xrgb8888) => widen(&self.data),
            _ => self.data.clone(),
        };
        let out = Snapshot { width: self.width, height: self.height, fmt, data };
        proof {
            if self.well_formed() {
                law_conversion_keeps_shape(*self, out);
            }
            law_pixel_for_pixel(self.data@, self.fmt, fmt);
        }
        out
    }
}

fn narrow(data: &Vec<u8>) -> (out: Vec<u8>)
    ensures
        out@ == narrowed(data@),
{
    let n: usize = data.len();
    let mut out: Vec<u8> = Vec::new();
    let mut p: usize = 0;
    assert(out@ =~= narrowed(data@).take(0));
    while n - p >= 4
        invariant
            n == data@.len(),
            p <= n,
            p % 4 == 0,
            out@ == narrowed(data@).take(p as int / 2),
        decreases n - p,
    {
        let (lo, hi) = narrow_pixel(data[p + 2], data[p + 1], data[p]);
        proof {
            lemma_narrowed_further(data@, p as int / 4, lo, hi);
        }
        out.push(lo);
        out.push(hi);
        p = p + 4;
    }
    assert(narrowed(data@).take(p as int / 2) =~= narrowed(data@));
    out
}

fn widen(data: &Vec<u8>) -> (out: Vec<u8>)
    ensures
        out@ == widened(data@),
{
    let n: usize = data.len();
    let mut out: Vec<u8> = Vec::new();
    let mut p: usize = 0;
    assert(out@ =~= widened(data@).take(0));
    while n - p >= 2
        invariant
            n == data@.len(),
            p <= n,
            p % 2 == 0,
            out@ == widened(data@).take(p * 2),
        decreases n - p,
    {
        let (b, g, r) = widen_pixel(data[p], data[p + 1]);
        proof {
            lemma_widened_further(data@, p as int / 2, b, g, r);
        }
        out.push(b);
        out.push(g);
        out.push(r);
        out.push(0);
        p = p + 2;
    }
    assert(widened(data@).take(p * 2) =~= widened(data@));
    out
}

/// Cuts `rows` rows of `row` bytes each out of `mem`.
pub fn pack_rows(mem: &[u8], origin: usize, pitch: usize, row: usize, rows: usize) -> (data: Vec<u8>)
    requires
        rows > 0 ==> origin + (rows - 1) * pitch + row <= mem@.len(),
    ensures
        packed(data@, mem@, origin as nat, pitch as nat, row as nat, rows as nat),
        data@.len() == rows * row,
        forall|y: int, c: int|
            0 <= y < rows && 0 <= c < row ==> #[trigger] data@[y * row + c] == mem@[origin + y
                * pitch + c],
{
    let mut data: Vec<u8> = Vec::new();
    let mut y: usize = 0;
    while y < rows
        invariant
            y <= rows,
            rows > 0 ==> origin + (rows - 1) * pitch + row <= mem@.len(),
            packed(data@, mem@, origin as nat, pitch as nat, row as nat, y as nat),
        decreases rows - y,
    {
        proof {
            assert(mem@.len() == mem.len());
            assert(0 <= y * pitch <= (rows - 1) * pitch) by (nonlinear_arith)
                requires
                    0 <= y <= rows - 1,
                    pitch >= 0,
            ;
            assert(y * row + row == (y + 1) * row && 0 <= y * row) by (nonlinear_arith)
                requires
                    y >= 0,
                    row >= 0,
            ;
        }
        let start: usize = origin + y * pitch;
        let ghost before = data@;
        data.extend_from_slice(vstd::slice::slice_subrange(mem, start, start + row));
        proof {
            let piece = mem@.subrange(start as int, start + row);
            assert(data@ =~= before + piece);
            assert forall|z: int| 0 <= z < y + 1 implies #[trigger] data@.subrange(
                z * row,
                z * row + row,
            ) == mem@.subrange(origin + z * pitch, origin + z * pitch + row) by {
                if z < y {
                    assert(0 <= z * row && z * row + row <= y * row) by (nonlinear_arith)
                        requires
                            0 <= z < y,
                            row >= 0,
                    ;
                    assert(data@.subrange(z * row, z * row + row) =~= before.subrange(
                        z * row,
                        z * row + row,
                    ));
                } else {
                    assert(data@.subrange(y * row, y * row + row) =~= piece);
                }
            }
        }
        y = y + 1;
    }
    proof {
        assert forall|z: int, c: int| 0 <= z < rows && 0 <= c < row implies #[trigger] data@[z * row
            + c] == mem@[origin + z * pitch + c] by {
            law_packed_byte(
                data@,
                mem@,
                origin as nat,
                pitch as nat,
                row as nat,
                rows as nat,
                z,
                c,
            );
        }
    }
    data
}

/// A row of a packed image is the row of the memory that it was cut out of.
pub proof fn law_packed_row(
    data: Seq<u8>,
    mem: Seq<u8>,
    origin: nat,
    pitch: nat,
    row: nat,
    rows: nat,
    y: int,
)
    requires
        packed(data, mem, origin, pitch, row, rows),
        0 <= y < rows,
    ensures
        data.subrange(y * row, (y + 1) * row) == mem.subrange(
            origin + y * pitch,
            origin + y * pitch + row,
        ),
{
    assert((y + 1) * row == y * row + row) by (nonlinear_arith);
    assert(data.subrange(y * row, y * row + row) == mem.subrange(
        origin + y * pitch,
        origin + y * pitch + row,
    ));
}

/// Byte `c` of row `y` of a packed image is byte `c` of the row in the memory
/// that starts `y` pitches after the first, and the image holds nothing else.
pub proof fn law_packed_byte(
    data: Seq<u8>,
    mem: Seq<u8>,
    origin: nat,
    pitch: nat,
    row: nat,
    rows: nat,
    y: int,
    c: int,
)
    requires
        packed(data, mem, origin, pitch, row, rows),
        rows > 0 ==> origin + (rows - 1) * pitch + row <= mem.len(),
        0 <= y < rows,
        0 <= c < row,
    ensures
        data.len() == rows * row,
        0 <= y * row + c < data.len(),
        data[y * row + c] == mem[origin + y * pitch + c],
{
    law_packed_row(data, mem, origin, pitch, row, rows, y);
    assert((y + 1) * row == y * row + row && 0 <= y * row && y * row + row <= rows * row && 0 <= y
        * pitch <= (rows - 1) * pitch) by (nonlinear_arith)
        requires
            0 <= y < rows,
            row >= 0,
            pitch >= 0,
    ;
    let a = data.subrange(y * row, (y + 1) * row);
    let b = mem.subrange(origin + y * pitch, origin + y * pitch + row);
    assert(a[c] == b[c]);
}

/// A row has four bytes for each pixel of 32 bits and two for each of 16, and a
/// well-formed image has its height in such rows.
pub proof fn law_image_size(image: Snapshot)
    ensures
        image.fmt is Xrgb8888 ==> image.stride() == 4 * image.width && (image.well_formed()
            <==> image.data@.len() == 4 * (image.width * image.height)),
        image.fmt is Rgb565 ==> image.stride() == 2 * image.width && (image.well_formed()
            <==> image.data@.len() == 2 * (image.width * image.height)),
{
    let (w, h) = (image.width as int, image.height as int);
    assert(h * (w * 4) == 4 * (w * h) && h * (w * 2) == 2 * (w * h)) by (nonlinear_arith);
}

/// Converting keeps every pixel in its place. A pixel of 32 bits gives the
/// little-endian number whose digits are the high bits of red, green and blue.
/// A pixel of 16 bits gives four bytes: each channel with its high bits repeated
/// below, blue first, and a zero.
pub proof fn law_pixel_for_pixel(data: Seq<u8>, from: PixFmt, to: PixFmt)
    ensures
        from == to ==> converted(data, from, to) == data,
        from is Xrgb8888 && to is Rgb565 ==> {
            let out = converted(data, from, to);
            &&& out.len() == data.len() as int / 4 * 2
            &&& forall|p: int|
                0 <= p < data.len() as int / 4 ==> #[trigger] out[2 * p] + 256 * out[2 * p + 1] == (
                data[4 * p + 2] as int / 8) * 2048 + (data[4 * p + 1] as int / 4) * 32 + data[4
                    * p] as int / 8
        },
        from is Rgb565 && to is Xrgb8888 ==> {
            let out = converted(data, from, to);
            &&& out.len() == data.len() as int / 2 * 4
            &&& forall|p: int|
                0 <= p < data.len() as int / 2 ==> {
                    let v = data[2 * p] + 256 * data[2 * p + 1];
                    &&& #[trigger] out[4 * p] == v % 32 * 8 + v % 32 / 4
                    &&& out[4 * p + 1] == v / 32 % 64 * 4 + v / 32 % 64 / 16
                    &&& out[4 * p + 2] == v / 2048 * 8 + v / 2048 / 4
                    &&& out[4 * p + 3] == 0
                }
        },
{
    let out = converted(data, from, to);
    if from is Xrgb8888 && to is Rgb565 {
        assert forall|p: int| 0 <= p < data.len() as int / 4 implies #[trigger] out[2 * p] + 256
            * out[2 * p + 1] == (data[4 * p + 2] as int / 8) * 2048 + (data[4 * p + 1] as int / 4)
            * 32 + data[4 * p] as int / 8 by {
            lemma_narrowed_at(data, p);
        }
    }
    if from is Rgb565 && to is Xrgb8888 {
        assert forall|p: int| 0 <= p < data.len() as int / 2 implies {
            let v = data[2 * p] + 256 * data[2 * p + 1];
            &&& #[trigger] out[4 * p] == v % 32 * 8 + v % 32 / 4
            &&& out[4 * p + 1] == v / 32 % 64 * 4 + v / 32 % 64 / 16
            &&& out[4 * p + 2] == v / 2048 * 8 + v / 2048 / 4
            &&& out[4 * p + 3] == 0
        } by {
            lemma_widened_at(data, p);
        }
    }
}

/// Only every 61st byte counts for whether an image looks blank, and each of
/// them does.
pub proof fn law_blank_samples(data: Seq<u8>, k: int)
    requires
        0 <= 61 * k < data.len(),
        data[61 * k] != 0,
    ensures
        !looks_blank(data),
{
    assert((61 * k) % 61 == 0);
}

/// Images that agree in every 61st byte look blank alike.
pub proof fn law_blank_ignores_the_rest(a: Seq<u8>, b: Seq<u8>)
    requires
        a.len() == b.len(),
        forall|k: int| 0 <= 61 * k < a.len() ==> #[trigger] a[61 * k] == b[61 * k],
    ensures
        looks_blank(a) == looks_blank(b),
{
    assert forall|i: int| 0 <= i < a.len() && i % 61 == 0 implies a[i] == b[i] by {
        assert(i == 61 * (i / 61));
        assert(a[61 * (i / 61)] == b[61 * (i / 61)]);
    }
}

/// There is only one way to cut given rows out of a memory.
pub proof fn law_packed_is_unique(
    a: Seq<u8>,
    b: Seq<u8>,
    mem: Seq<u8>,
    origin: nat,
    pitch: nat,
    row: nat,
    rows: nat,
)
    requires
        packed(a, mem, origin, pitch, row, rows),
        packed(b, mem, origin, pitch, row, rows),
    ensures
        a == b,
{
    assert forall|i: int| 0 <= i < a.len() implies a[i] == b[i] by {
        assert(row > 0) by (nonlinear_arith)
            requires
                0 <= i < rows * row,
                row >= 0,
        ;
        let y = i / row as int;
        let c = i % row as int;
        vstd::arithmetic::div_mod::lemma_fundamental_div_mod(i, row as int);
        assert(0 <= y < rows && 0 <= c < row && i == y * row + c && y * row + row <= rows * row)
            by (nonlinear_arith)
            requires
                row > 0,
                0 <= i < rows * row,
                y == i / row as int,
                c == i % row as int,
                i == row * y + c,
        ;
        assert(a.subrange(y * row, y * row + row) == b.subrange(y * row, y * row + row));
        assert(a.subrange(y * row, y * row + row)[c] == b.subrange(y * row, y * row + row)[c]);
    }
    assert(a =~= b);
}

/// Converting a well-formed image gives a well-formed image.
pub proof fn law_conversion_keeps_shape(image: Snapshot, out: Snapshot)
    requires
        image.well_formed(),
        out.width == image.width,
        out.height == image.height,
        out.data@ == converted(image.data@, image.fmt, out.fmt),
    ensures
        out.well_formed(),
{
    let pixels = image.height as nat * image.width as nat;
    assert(image.height as nat * (image.width as nat * 4) == pixels * 4 && image.height as nat * (
    image.width as nat * 2) == pixels * 2) by (nonlinear_arith)
        requires
            pixels == image.height as nat * image.width as nat,
    ;
}

/// A widened channel fits a byte and still holds the bits it came from.
proof fn lemma_widen(c5: int, c6: int)
    requires
        0 <= c5 < 32,
        0 <= c6 < 64,
    ensures
        0 <= widen5(c5) < 256,
        widen5(c5) / 8 == c5,
        0 <= widen6(c6) < 256,
        widen6(c6) / 4 == c6,
{
}

/// A number is made of its quotient and its remainder, twice over.
proof fn lemma_two_digits(v: int)
    ensures
        v == (v / 32) * 32 + v % 32,
        v / 32 == (v / 2048) * 64 + v / 32 % 64,
{
    assert(v / 32 / 64 == v / 2048);
}

/// A sixteen-bit pixel is made of its three channels.
proof fn lemma_channels(v: int)
    requires
        0 <= v < 0x10000,
    ensures
        0 <= v / 2048 < 32,
        0 <= v / 32 % 64 < 64,
        0 <= v % 32 < 32,
        (v / 2048) * 2048 + (v / 32 % 64) * 32 + v % 32 == v,
{
    lemma_two_digits(v);
}

/// The channels of a number made of three channels.
proof fn lemma_made_of(r5: int, g6: int, b5: int, v: int)
    requires
        0 <= r5 < 32,
        0 <= g6 < 64,
        0 <= b5 < 32,
        v == r5 * 2048 + g6 * 32 + b5,
    ensures
        0 <= v < 0x10000,
        v % 32 == b5,
        v / 32 % 64 == g6,
        v / 2048 == r5,
{
    assert(v / 32 == r5 * 64 + g6);
}

/// The channels of a sixteen-bit pixel are those it was made of.
proof fn lemma_rgb565(r: u8, g: u8, b: u8)
    ensures
        0 <= rgb565(r, g, b) < 0x10000,
        rgb565(r, g, b) % 32 == b as int / 8,
        rgb565(r, g, b) / 32 % 64 == g as int / 4,
        rgb565(r, g, b) / 2048 == r as int / 8,
{
    lemma_made_of(r as int / 8, g as int / 4, b as int / 8, rgb565(r, g, b));
}

/// The sixteen-bit pixel at `p` of `data`, bytes in little-endian order.
pub open spec fn pixel16(data: Seq<u8>, p: int) -> int {
    data[2 * p] + 256 * data[2 * p + 1]
}

/// The bytes of the widened pixel at `p`.
proof fn lemma_widened_at(data: Seq<u8>, p: int)
    requires
        0 <= p < data.len() as int / 2,
    ensures
        widened(data).len() == data.len() as int / 2 * 4,
        widened(data)[4 * p] == widen5(pixel16(data, p) % 32),
        widened(data)[4 * p + 1] == widen6(pixel16(data, p) / 32 % 64),
        widened(data)[4 * p + 2] == widen5(pixel16(data, p) / 2048),
        widened(data)[4 * p + 3] == 0,
{
    let v = pixel16(data, p);
    lemma_channels(v);
    lemma_widen(v % 32, v / 32 % 64);
    lemma_widen(v / 2048, 0);
    let o = 4 * p;
    assert(o / 4 == p && (o + 1) / 4 == p && (o + 2) / 4 == p && (o + 3) / 4 == p);
    assert(o % 4 == 0 && (o + 1) % 4 == 1 && (o + 2) % 4 == 2 && (o + 3) % 4 == 3);
}

/// The narrowed pixel at `p`.
proof fn lemma_narrowed_at(data: Seq<u8>, p: int)
    requires
        0 <= p < data.len() as int / 4,
    ensures
        narrowed(data).len() == data.len() as int / 4 * 2,
        narrowed(data)[2 * p] == rgb565(data[4 * p + 2], data[4 * p + 1], data[4 * p]) % 256,
        narrowed(data)[2 * p + 1] == rgb565(data[4 * p + 2], data[4 * p + 1], data[4 * p]) / 256,
        pixel16(narrowed(data), p) == rgb565(data[4 * p + 2], data[4 * p + 1], data[4 * p]),
{
    let v = rgb565(data[4 * p + 2], data[4 * p + 1], data[4 * p]);
    lemma_rgb565(data[4 * p + 2], data[4 * p + 1], data[4 * p]);
    let o = 2 * p;
    assert(o / 2 == p && (o + 1) / 2 == p && o % 2 == 0 && (o + 1) % 2 == 1);
    assert(0 <= v % 256 < 256 && 0 <= v / 256 < 256);
}

/// The narrowed pixels up to and including that at `p`.
proof fn lemma_narrowed_further(data: Seq<u8>, p: int, lo: u8, hi: u8)
    requires
        0 <= p < data.len() as int / 4,
        lo == rgb565(data[4 * p + 2], data[4 * p + 1], data[4 * p]) % 256,
        hi == rgb565(data[4 * p + 2], data[4 * p + 1], data[4 * p]) / 256,
    ensures
        narrowed(data).take(2 * p).push(lo).push(hi) == narrowed(data).take(2 * p + 2),
{
    lemma_narrowed_at(data, p);
    assert(narrowed(data).take(2 * p).push(lo).push(hi) =~= narrowed(data).take(2 * p + 2));
}

/// The widened pixels up to and including that at `p`.
proof fn lemma_widened_further(data: Seq<u8>, p: int, b: u8, g: u8, r: u8)
    requires
        0 <= p < data.len() as int / 2,
        b == widen5(pixel16(data, p) % 32),
        g == widen6(pixel16(data, p) / 32 % 64),
        r == widen5(pixel16(data, p) / 2048),
    ensures
        widened(data).take(4 * p).push(b).push(g).push(r).push(0) == widened(data).take(4 * p + 4),
{
    lemma_widened_at(data, p);
    assert(widened(data).take(4 * p).push(b).push(g).push(r).push(0) =~= widened(data).take(
        4 * p + 4,
    ));
}

/// Narrowing the widened channels of a sixteen-bit pixel gives the pixel.
proof fn lemma_widen_narrow_pixel(lo: u8, hi: u8, b: u8, g: u8, r: u8)
    requires
        b == widen5((lo + 256 * hi) % 32),
        g == widen6((lo + 256 * hi) / 32 % 64),
        r == widen5((lo + 256 * hi) / 2048),
    ensures
        rgb565(r, g, b) % 256 == lo,
        rgb565(r, g, b) / 256 == hi,
{
    let v = lo + 256 * hi;
    let (r5, g6, b5) = (v / 2048, v / 32 % 64, v % 32);
    assert(0 <= r5 < 32 && 0 <= g6 < 64 && 0 <= b5 < 32 && r5 * 2048 + g6 * 32 + b5 == v) by {
        lemma_channels(v);
    }
    assert(r as int / 8 == r5) by {
        lemma_widen(r5, 0);
    }
    assert(g as int / 4 == g6) by {
        lemma_widen(0, g6);
    }
    assert(b as int / 8 == b5) by {
        lemma_widen(b5, 0);
    }
    assert(rgb565(r, g, b) == v);
    lemma_bytes(lo as int, hi as int);
}

proof fn lemma_bytes(lo: int, hi: int)
    requires
        0 <= lo < 256,
    ensures
        (lo + 256 * hi) % 256 == lo,
        (lo + 256 * hi) / 256 == hi,
{
}

/// Two pixels whose red and blue differ by less than eight steps and whose
/// green differs by less than four.
pub open spec fn close(a: (u8, u8, u8), b: (u8, u8, u8)) -> bool {
    &&& -8 < a.0 - b.0 < 8
    &&& -4 < a.1 - b.1 < 4
    &&& -8 < a.2 - b.2 < 8
}

/// Widening the narrowed channels of a pixel gives channels close to it.
proof fn lemma_narrow_widen_pixel(px: (u8, u8, u8), out: (u8, u8, u8), v: int)
    requires
        v == rgb565(px.2, px.1, px.0),
        out.0 == widen5(v % 32),
        out.1 == widen6(v / 32 % 64),
        out.2 == widen5(v / 2048),
    ensures
        close(out, px),
{
    lemma_rgb565(px.2, px.1, px.0);
    lemma_close(px.0 as int, px.1 as int, px.2 as int);
}

proof fn lemma_close(b: int, g: int, r: int)
    requires
        0 <= b < 256,
        0 <= g < 256,
        0 <= r < 256,
    ensures
        -8 < widen5(b / 8) - b < 8,
        -4 < widen6(g / 4) - g < 4,
        -8 < widen5(r / 8) - r < 8,
{
}

/// Widening 16-bit pixels and narrowing them again changes nothing.
#[verifier::spinoff_prover]
pub proof fn law_widen_narrow(data: Seq<u8>)
    requires
        data.len() % 2 == 0,
    ensures
        narrowed(widened(data)) == data,
{
    let wide = widened(data);
    let back = narrowed(wide);
    assert forall|p: int| 0 <= p < data.len() as int / 2 implies back[2 * p] == data[2 * p]
        && #[trigger] back[2 * p + 1] == data[2 * p + 1] by {
        lemma_widened_at(data, p);
        lemma_narrowed_at(wide, p);
        lemma_widen_narrow_pixel(
            data[2 * p],
            data[2 * p + 1],
            wide[4 * p],
            wide[4 * p + 1],
            wide[4 * p + 2],
        );
    }
    assert forall|i: int| 0 <= i < data.len() implies back[i] == data[i] by {
        let p = i / 2;
        assert(back[2 * p + 1] == data[2 * p + 1]);
    }
    assert(back =~= data);
}

/// Blue, green and red of the 32-bit pixel at `p` of `data`.
pub open spec fn channels(data: Seq<u8>, p: int) -> (u8, u8, u8) {
    (data[4 * p], data[4 * p + 1], data[4 * p + 2])
}

/// Narrowing 32-bit pixels and widening them again moves red and blue by less
/// than eight steps and green by less than four.
#[verifier::spinoff_prover]
pub proof fn law_narrow_widen_is_close(data: Seq<u8>, p: int)
    requires
        0 <= p < data.len() as int / 4,
    ensures
        widened(narrowed(data)).len() == data.len() as int / 4 * 4,
        close(channels(widened(narrowed(data)), p), channels(data, p)),
{
    lemma_narrowed_at(data, p);
    let small = narrowed(data);
    lemma_widened_at(small, p);
    lemma_narrow_widen_pixel(channels(data, p), channels(widened(small), p), pixel16(small, p));
}

/// A black pixel stays black.
proof fn lemma_black(data: Seq<u8>, p: int)
    requires
        forall|i: int| 0 <= i < data.len() ==> data[i] == 0,
    ensures
        0 <= p < data.len() as int / 4 ==> narrowed(data)[2 * p] == 0 && narrowed(data)[2 * p + 1]
            == 0,
        0 <= p < data.len() as int / 2 ==> channels(widened(data), p) == (0u8, 0u8, 0u8)
            && widened(data)[4 * p + 3] == 0,
{
    assert(rgb565(0, 0, 0) == 0 && widen5(0) == 0 && widen6(0) == 0);
    if 0 <= p < data.len() as int / 4 {
        lemma_narrowed_at(data, p);
    }
    if 0 <= p < data.len() as int / 2 {
        lemma_widened_at(data, p);
        assert(pixel16(data, p) == 0);
    }
}

/// An all-black image looks blank, whatever format it is converted to.
#[verifier::spinoff_prover]
pub proof fn law_black_is_blank(data: Seq<u8>, from: PixFmt, to: PixFmt)
    requires
        forall|i: int| 0 <= i < data.len() ==> data[i] == 0,
    ensures
        looks_blank(data),
        looks_blank(converted(data, from, to)),
{
    let out = converted(data, from, to);
    assert forall|i: int| 0 <= i < out.len() implies out[i] == 0 by {
        match (from, to) {
            (PixFmt::Xrgb8888, PixFmt::Rgb565) => {
                lemma_black(data, i / 2);
                assert(i == 2 * (i / 2) || i == 2 * (i / 2) + 1);
            },
            (PixFmt::Rgb565, PixFmt::Xrgb8888) => {
                let p = i / 4;
                lemma_black(data, p);
                assert(i == 4 * p || i == 4 * p + 1 || i == 4 * p + 2 || i == 4 * p + 3);
            },
            _ => {},
        }
    }
}

} // verus!
