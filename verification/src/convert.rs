//! Pixel-format conversion: every captured [`VideoFrame`] becomes planar I420
//! (4:2:0), the one input format the H.264 encoder consumes.
//!
//! [`to_i420`] dispatches on [`PixelFormat`] and writes into a caller-owned
//! [`I420Buffer`] scratch. The buffer grows to the largest resolution seen and
//! is then reused.
use crate::color;
use crate::error::MediaError;
use crate::jpeg;
use crate::text;
use crate::video::{self, PixelFormat, VideoFrame};
use vstd::prelude::*;
use vstd::string::*;
use zune_jpeg::zune_core::colorspace::ColorSpace;
use zune_jpeg::zune_core::options::DecoderOptions;
use zune_jpeg::JpegDecoder;

verus! {

/// A planar 4:2:0 picture: a full-resolution luma plane and two
/// quarter-resolution chroma planes, tightly packed row by row.
#[verifier::ext_equal]
pub struct Planes {
    pub width: nat,
    pub height: nat,
    pub y: Seq<u8>,
    pub u: Seq<u8>,
    pub v: Seq<u8>,
}

impl Planes {
    /// Both dimensions are even and every plane has the size they call for.
    pub open spec fn well_formed(&self) -> bool {
        &&& self.width % 2 == 0
        &&& self.height % 2 == 0
        &&& self.y.len() == self.width * self.height
        &&& self.u.len() == (self.width / 2) * (self.height / 2)
        &&& self.v.len() == (self.width / 2) * (self.height / 2)
    }
}

/// Reusable planar I420 scratch buffer.
///
/// Holds three planes (full-resolution Y, quarter-resolution U and V) plus the
/// dimensions they currently describe, with stride equal to width. [`to_i420`]
/// resizes it on demand.
#[derive(Debug)]
pub struct I420Buffer {
    width: usize,
    height: usize,
    y: Vec<u8>,
    u: Vec<u8>,
    v: Vec<u8>,
}

impl View for I420Buffer {
    type V = Planes;

    closed spec fn view(&self) -> Planes {
        Planes {
            width: self.width as nat,
            height: self.height as nat,
            y: self.y@,
            u: self.u@,
            v: self.v@,
        }
    }
}

impl Default for I420Buffer {
    /// An empty buffer.
    fn default() -> (buf: I420Buffer)
        ensures
            buf@ == no_picture(),
    {
        I420Buffer { width: 0, height: 0, y: Vec::new(), u: Vec::new(), v: Vec::new() }
    }
}

/// The picture of an unused buffer.
pub open spec fn no_picture() -> Planes {
    Planes {
        width: 0,
        height: 0,
        y: Seq::<u8>::empty(),
        u: Seq::<u8>::empty(),
        v: Seq::<u8>::empty(),
    }
}

impl I420Buffer {
    /// Creates an empty buffer; the first conversion sizes it.
    pub fn new() -> (buf: I420Buffer)
        ensures
            buf@ == no_picture(),
    {
        I420Buffer::default()
    }

    /// Resizes the planes for a `width` by `height` frame, reusing capacity.
    fn prepare(&mut self, width: usize, height: usize)
        requires
            width * height <= usize::MAX,
        ensures
            final(self)@.width == width,
            final(self)@.height == height,
            final(self)@.y.len() == width * height,
            final(self)@.u.len() == width * height / 4,
            final(self)@.v.len() == width * height / 4,
            width % 2 == 0 && height % 2 == 0 ==> final(self)@.well_formed(),
    {
        proof {
            if width % 2 == 0 && height % 2 == 0 {
                lemma_quarter(width as nat, height as nat);
            }
        }
        self.width = width;
        self.height = height;
        self.y.resize(width * height, 0);
        self.u.resize(width * height / 4, 0);
        self.v.resize(width * height / 4, 0);
    }

    /// The dimensions as width and height.
    pub fn dimensions(&self) -> (d: (usize, usize))
        ensures
            d.0 == self@.width,
            d.1 == self@.height,
    {
        (self.width, self.height)
    }

    /// The strides of the three planes: rows are tightly packed.
    pub fn strides(&self) -> (s: (usize, usize, usize))
        ensures
            s.0 == self@.width,
            s.1 == self@.width / 2,
            s.2 == self@.width / 2,
    {
        (self.width, self.width / 2, self.width / 2)
    }

    /// The luma plane.
    pub fn y(&self) -> (plane: &[u8])
        ensures
            plane@ == self@.y,
    {
        self.y.as_slice()
    }

    /// The Cb plane.
    pub fn u(&self) -> (plane: &[u8])
        ensures
            plane@ == self@.u,
    {
        self.u.as_slice()
    }

    /// The Cr plane.
    pub fn v(&self) -> (plane: &[u8])
        ensures
            plane@ == self@.v,
    {
        self.v.as_slice()
    }
}

/// Component `c` of the pixel at column `x` of row `y`, in three-byte packed
/// pixels.
pub open spec fn packed_sample(data: Seq<u8>, width: int, x: int, y: int, c: int) -> int {
    data[(y * width + x) * 3 + c] as int
}

/// Component `c` averaged, to the nearest, over the two-by-two block of pixels
/// in column `cx` and row `cy` of the chroma grid.
pub open spec fn block_mean(data: Seq<u8>, width: int, cx: int, cy: int, c: int) -> int {
    (packed_sample(data, width, 2 * cx, 2 * cy, c) + packed_sample(
        data,
        width,
        2 * cx + 1,
        2 * cy,
        c,
    ) + packed_sample(data, width, 2 * cx, 2 * cy + 1, c) + packed_sample(
        data,
        width,
        2 * cx + 1,
        2 * cy + 1,
        c,
    ) + 2) / 4
}

/// A chroma plane given cell by cell: `f` maps the column and row of a cell to
/// its sample.
pub open spec fn chroma_plane(width: nat, height: nat, f: spec_fn(int, int) -> u8) -> Seq<u8> {
    Seq::new(
        (width / 2) * (height / 2),
        |k: int| f(k % (width as int / 2), k / (width as int / 2)),
    )
}

/// The picture of packed RGB pixels.
pub open spec fn rgb24_planes(data: Seq<u8>, width: nat, height: nat) -> Planes {
    let w = width as int;
    Planes {
        width,
        height,
        y: Seq::new(
            width * height,
            |i: int|
                color::luma601(data[3 * i] as int, data[3 * i + 1] as int, data[3 * i + 2] as int) as u8,
        ),
        u: chroma_plane(
            width,
            height,
            |cx: int, cy: int|
                color::cb601(
                    block_mean(data, w, cx, cy, 0),
                    block_mean(data, w, cx, cy, 1),
                    block_mean(data, w, cx, cy, 2),
                ) as u8,
        ),
        v: chroma_plane(
            width,
            height,
            |cx: int, cy: int|
                color::cr601(
                    block_mean(data, w, cx, cy, 0),
                    block_mean(data, w, cx, cy, 1),
                    block_mean(data, w, cx, cy, 2),
                ) as u8,
        ),
    }
}

/// Two samples averaged, halves rounded up.
pub open spec fn mean_of_two(a: int, b: int) -> int {
    (a + b + 1) / 2
}

/// The sample of a packed 4:2:2 payload at byte `c` of pixel pair `cx` in row
/// `y`, where a pair is laid out as two lumas with the shared chromas between
/// and after them.
pub open spec fn pair_sample(data: Seq<u8>, width: int, cx: int, y: int, c: int) -> int {
    data[y * (2 * width) + 4 * cx + c] as int
}

/// The picture of packed 4:2:2 pixels: luma as it is, chroma averaged over each
/// pair of rows.
pub open spec fn yuyv_planes(data: Seq<u8>, width: nat, height: nat) -> Planes {
    let w = width as int;
    Planes {
        width,
        height,
        y: Seq::new(width * height, |i: int| data[2 * i]),
        u: chroma_plane(
            width,
            height,
            |cx: int, cy: int|
                mean_of_two(
                    pair_sample(data, w, cx, 2 * cy, 1),
                    pair_sample(data, w, cx, 2 * cy + 1, 1),
                ) as u8,
        ),
        v: chroma_plane(
            width,
            height,
            |cx: int, cy: int|
                mean_of_two(
                    pair_sample(data, w, cx, 2 * cy, 3),
                    pair_sample(data, w, cx, 2 * cy + 1, 3),
                ) as u8,
        ),
    }
}

/// The picture of semi-planar 4:2:0 pixels: the luma plane as it is, the
/// interleaved chroma taken apart.
pub open spec fn nv12_planes(data: Seq<u8>, width: nat, height: nat) -> Planes {
    let luma = (width * height) as int;
    Planes {
        width,
        height,
        y: data.take(luma),
        u: Seq::new((width / 2) * (height / 2), |k: int| data[luma + 2 * k]),
        v: Seq::new((width / 2) * (height / 2), |k: int| data[luma + 2 * k + 1]),
    }
}

/// The picture of grayscale pixels: luma as it is, neutral chroma.
pub open spec fn luma8_planes(data: Seq<u8>, width: nat, height: nat) -> Planes {
    Planes {
        width,
        height,
        y: data,
        u: Seq::new((width / 2) * (height / 2), |k: int| 128u8),
        v: Seq::new((width / 2) * (height / 2), |k: int| 128u8),
    }
}

/// The picture of packed full-range YCbCr pixels: every sample compressed to
/// limited range, chroma averaged over each two-by-two block first.
pub open spec fn ycbcr_planes(data: Seq<u8>, width: nat, height: nat) -> Planes {
    let w = width as int;
    Planes {
        width,
        height,
        y: Seq::new(width * height, |i: int| color::limited_luma(data[3 * i] as int) as u8),
        u: chroma_plane(
            width,
            height,
            |cx: int, cy: int| color::limited_chroma(block_mean(data, w, cx, cy, 1)) as u8,
        ),
        v: chroma_plane(
            width,
            height,
            |cx: int, cy: int| color::limited_chroma(block_mean(data, w, cx, cy, 2)) as u8,
        ),
    }
}

/// A 4:2:0 chroma plane has a quarter of the luma plane's samples.
proof fn lemma_quarter(width: nat, height: nat)
    requires
        width % 2 == 0,
        height % 2 == 0,
    ensures
        width * height / 4 == (width / 2) * (height / 2),
{
    let a = width / 2;
    let b = height / 2;
    assert(width == 2 * a && height == 2 * b);
    assert((2 * a) * (2 * b) == 4 * (a * b)) by (nonlinear_arith);
}

/// Where a component of a pixel lies in three-byte packed data.
proof fn lemma_sample_index(x: int, y: int, width: int, height: int, c: int)
    requires
        0 <= x < width,
        0 <= y < height,
        0 <= c < 3,
    ensures
        0 <= y * width + x < width * height,
        0 <= (y * width + x) * 3 + c < width * height * 3,
{
    assert(0 <= y * width + x < width * height) by (nonlinear_arith)
        requires
            0 <= x < width,
            0 <= y < height,
    ;
}

/// The chroma cell that a position of the plane belongs to.
proof fn lemma_cell(cx: int, cy: int, chroma_w: int, chroma_h: int)
    requires
        0 <= cx < chroma_w,
        0 <= cy < chroma_h,
    ensures
        0 <= cy * chroma_w + cx < chroma_w * chroma_h,
        (cy * chroma_w + cx) % chroma_w == cx,
        (cy * chroma_w + cx) / chroma_w == cy,
{
    assert(0 <= cy * chroma_w + cx < chroma_w * chroma_h) by (nonlinear_arith)
        requires
            0 <= cx < chroma_w,
            0 <= cy < chroma_h,
    ;
    vstd::arithmetic::div_mod::lemma_fundamental_div_mod_converse(
        cy * chroma_w + cx,
        chroma_w,
        cy,
        cx,
    );
}

/// Component `c` of one pixel of three-byte packed data.
fn sample_at(data: &[u8], width: usize, height: usize, x: usize, y: usize, c: usize) -> (s: u32)
    requires
        data@.len() == width * height * 3,
        width * height * 3 <= usize::MAX,
        x < width,
        y < height,
        c < 3,
    ensures
        s as int == packed_sample(data@, width as int, x as int, y as int, c as int),
        s <= 255,
{
    proof {
        lemma_sample_index(x as int, y as int, width as int, height as int, c as int);
        assert(0 <= y * width) by (nonlinear_arith)
            requires
                y >= 0,
                width >= 0,
        ;
    }
    data[(y * width + x) * 3 + c] as u32
}

/// Component `c` averaged over one two-by-two block.
fn block_mean_at(
    data: &[u8],
    width: usize,
    height: usize,
    cx: usize,
    cy: usize,
    c: usize,
) -> (m: u32)
    requires
        data@.len() == width * height * 3,
        width * height * 3 <= usize::MAX,
        cx < width / 2,
        cy < height / 2,
        c < 3,
    ensures
        m as int == block_mean(data@, width as int, cx as int, cy as int, c as int),
        m <= 255,
{
    let x: usize = cx * 2;
    let y: usize = cy * 2;
    let sum: u32 = sample_at(data, width, height, x, y, c) + sample_at(
        data,
        width,
        height,
        x + 1,
        y,
        c,
    ) + sample_at(data, width, height, x, y + 1, c) + sample_at(
        data,
        width,
        height,
        x + 1,
        y + 1,
        c,
    );
    (sum + 2) / 4
}

/// The message for a payload of the wrong length.
pub open spec fn length_error(format: Seq<char>, len: nat, expected: nat) -> Seq<char> {
    format + " payload is "@ + text::decimal(len) + " bytes, expected "@ + text::decimal(expected)
}

/// Checks that a payload is exactly `expected` bytes for the given format
/// label.
pub fn check_len(data: &[u8], expected: u128, format: &str) -> (r: Result<(), MediaError>)
    ensures
        r is Ok <==> data@.len() == expected,
        r matches Err(e) ==> e matches MediaError::Convert(m) && m@ == length_error(
            format@,
            data@.len(),
            expected as nat,
        ),
{
    let len: usize = data.len();
    if len as u128 != expected {
        let mut m = format.to_owned();
        m.append(" payload is ");
        text::push_decimal(&mut m, len as u128);
        m.append(" bytes, expected ");
        text::push_decimal(&mut m, expected);
        return Err(MediaError::Convert(m));
    }
    Ok(())
}

fn rgb24_to_i420(data: &[u8], width: usize, height: usize, buf: &mut I420Buffer)
    requires
        data@.len() == width * height * 3,
        width % 2 == 0,
        height % 2 == 0,
    ensures
        final(buf)@ == rgb24_planes(data@, width as nat, height as nat),
        final(buf)@.well_formed(),
{
    let _len: usize = data.len();
    proof {
        lemma_quarter(width as nat, height as nat);
    }
    buf.prepare(width, height);
    let total: usize = width * height;
    let mut i: usize = 0;
    while i < total
        invariant
            i <= total,
            total == width * height,
            data@.len() == total * 3,
            total * 3 <= usize::MAX,
            buf@.width == width,
            buf@.height == height,
            buf@.well_formed(),
            forall|j: int|
                0 <= j < i ==> #[trigger] buf@.y[j] == rgb24_planes(
                    data@,
                    width as nat,
                    height as nat,
                ).y[j],
        decreases total - i,
    {
        buf.y[i] = color::rgb_to_y(data[i * 3] as u16, data[i * 3 + 1] as u16, data[i * 3 + 2] as u16);
        i = i + 1;
    }

    let chroma_w: usize = width / 2;
    let chroma_h: usize = height / 2;
    let ghost planes = rgb24_planes(data@, width as nat, height as nat);
    assert(buf@.y =~= planes.y);
    let mut k: usize = 0;
    let mut cy: usize = 0;
    while cy < chroma_h
        invariant
            cy <= chroma_h,
            k == cy * chroma_w,
            chroma_w == width / 2,
            chroma_h == height / 2,
            data@.len() == width * height * 3,
            width * height * 3 <= usize::MAX,
            chroma_w * chroma_h <= usize::MAX,
            planes == rgb24_planes(data@, width as nat, height as nat),
            buf@.width == width,
            buf@.height == height,
            buf@.well_formed(),
            buf@.y == planes.y,
            forall|j: int| 0 <= j < k ==> #[trigger] buf@.u[j] == planes.u[j],
            forall|j: int| 0 <= j < k ==> #[trigger] buf@.v[j] == planes.v[j],
        decreases chroma_h - cy,
    {
        let mut cx: usize = 0;
        while cx < chroma_w
            invariant
                cx <= chroma_w,
                cy < chroma_h,
                k == cy * chroma_w + cx,
                chroma_w == width / 2,
                chroma_h == height / 2,
                data@.len() == width * height * 3,
                width * height * 3 <= usize::MAX,
                chroma_w * chroma_h <= usize::MAX,
                planes == rgb24_planes(data@, width as nat, height as nat),
                buf@.width == width,
                buf@.height == height,
                buf@.well_formed(),
                buf@.y == planes.y,
                forall|j: int| 0 <= j < k ==> #[trigger] buf@.u[j] == planes.u[j],
                forall|j: int| 0 <= j < k ==> #[trigger] buf@.v[j] == planes.v[j],
            decreases chroma_w - cx,
        {
            proof {
                lemma_cell(cx as int, cy as int, chroma_w as int, chroma_h as int);
                color::law_rgb_is_limited_range(
                    block_mean(data@, width as int, cx as int, cy as int, 0),
                    block_mean(data@, width as int, cx as int, cy as int, 1),
                    block_mean(data@, width as int, cx as int, cy as int, 2),
                );
            }
            let r: i32 = block_mean_at(data, width, height, cx, cy, 0) as i32;
            let g: i32 = block_mean_at(data, width, height, cx, cy, 1) as i32;
            let b: i32 = block_mean_at(data, width, height, cx, cy, 2) as i32;
            buf.u[k] = color::rgb_to_u(r, g, b);
            buf.v[k] = color::rgb_to_v(r, g, b);
            k = k + 1;
            cx = cx + 1;
        }
        proof {
            assert((cy + 1) * chroma_w == cy * chroma_w + chroma_w) by (nonlinear_arith);
        }
        cy = cy + 1;
    }
    proof {
        assert(chroma_h * chroma_w == chroma_w * chroma_h) by (nonlinear_arith);
        assert(buf@.u =~= planes.u);
        assert(buf@.v =~= planes.v);
    }
}

/// One sample of packed 4:2:2 data.
fn pair_sample_at(
    data: &[u8],
    width: usize,
    height: usize,
    cx: usize,
    y: usize,
    c: usize,
) -> (s: u16)
    requires
        data@.len() == width * height * 2,
        width * height * 2 <= usize::MAX,
        width % 2 == 0,
        cx < width / 2,
        y < height,
        c < 4,
    ensures
        s as int == pair_sample(data@, width as int, cx as int, y as int, c as int),
        s <= 255,
{
    proof {
        assert(0 <= y * (2 * width) <= width * height * 2 - 2 * width) by (nonlinear_arith)
            requires
                0 <= y < height,
                0 <= width,
        ;
        assert(2 * width <= width * height * 2) by (nonlinear_arith)
            requires
                1 <= height,
                0 <= width,
        ;
    }
    data[y * (2 * width) + 4 * cx + c] as u16
}

fn yuyv_to_i420(data: &[u8], width: usize, height: usize, buf: &mut I420Buffer)
    requires
        data@.len() == width * height * 2,
        width % 2 == 0,
        height % 2 == 0,
    ensures
        final(buf)@ == yuyv_planes(data@, width as nat, height as nat),
        final(buf)@.well_formed(),
{
    let _len: usize = data.len();
    proof {
        lemma_quarter(width as nat, height as nat);
    }
    buf.prepare(width, height);
    let total: usize = width * height;
    let mut i: usize = 0;
    while i < total
        invariant
            i <= total,
            total == width * height,
            data@.len() == total * 2,
            total * 2 <= usize::MAX,
            buf@.width == width,
            buf@.height == height,
            buf@.well_formed(),
            forall|j: int|
                0 <= j < i ==> #[trigger] buf@.y[j] == yuyv_planes(
                    data@,
                    width as nat,
                    height as nat,
                ).y[j],
        decreases total - i,
    {
        buf.y[i] = data[i * 2];
        i = i + 1;
    }

    let chroma_w: usize = width / 2;
    let chroma_h: usize = height / 2;
    let ghost planes = yuyv_planes(data@, width as nat, height as nat);
    assert(buf@.y =~= planes.y);
    let mut k: usize = 0;
    let mut cy: usize = 0;
    while cy < chroma_h
        invariant
            cy <= chroma_h,
            k == cy * chroma_w,
            chroma_w == width / 2,
            chroma_h == height / 2,
            width % 2 == 0,
            height % 2 == 0,
            data@.len() == width * height * 2,
            width * height * 2 <= usize::MAX,
            chroma_w * chroma_h <= usize::MAX,
            planes == yuyv_planes(data@, width as nat, height as nat),
            buf@.width == width,
            buf@.height == height,
            buf@.well_formed(),
            buf@.y == planes.y,
            forall|j: int| 0 <= j < k ==> #[trigger] buf@.u[j] == planes.u[j],
            forall|j: int| 0 <= j < k ==> #[trigger] buf@.v[j] == planes.v[j],
        decreases chroma_h - cy,
    {
        let mut cx: usize = 0;
        while cx < chroma_w
            invariant
                cx <= chroma_w,
                cy < chroma_h,
                k == cy * chroma_w + cx,
                chroma_w == width / 2,
                chroma_h == height / 2,
                width % 2 == 0,
                height % 2 == 0,
                data@.len() == width * height * 2,
                width * height * 2 <= usize::MAX,
                chroma_w * chroma_h <= usize::MAX,
                planes == yuyv_planes(data@, width as nat, height as nat),
                buf@.width == width,
                buf@.height == height,
                buf@.well_formed(),
                buf@.y == planes.y,
                forall|j: int| 0 <= j < k ==> #[trigger] buf@.u[j] == planes.u[j],
                forall|j: int| 0 <= j < k ==> #[trigger] buf@.v[j] == planes.v[j],
            decreases chroma_w - cx,
        {
            proof {
                lemma_cell(cx as int, cy as int, chroma_w as int, chroma_h as int);
            }
            let top_u: u16 = pair_sample_at(data, width, height, cx, cy * 2, 1);
            let bottom_u: u16 = pair_sample_at(data, width, height, cx, cy * 2 + 1, 1);
            let top_v: u16 = pair_sample_at(data, width, height, cx, cy * 2, 3);
            let bottom_v: u16 = pair_sample_at(data, width, height, cx, cy * 2 + 1, 3);
            buf.u[k] = ((top_u + bottom_u + 1) / 2) as u8;
            buf.v[k] = ((top_v + bottom_v + 1) / 2) as u8;
            k = k + 1;
            cx = cx + 1;
        }
        proof {
            assert((cy + 1) * chroma_w == cy * chroma_w + chroma_w) by (nonlinear_arith);
        }
        cy = cy + 1;
    }
    proof {
        assert(chroma_h * chroma_w == chroma_w * chroma_h) by (nonlinear_arith);
        assert(buf@.u =~= planes.u);
        assert(buf@.v =~= planes.v);
    }
}

fn ycbcr_to_i420(data: &[u8], width: usize, height: usize, buf: &mut I420Buffer)
    requires
        data@.len() == width * height * 3,
        width % 2 == 0,
        height % 2 == 0,
    ensures
        final(buf)@ == ycbcr_planes(data@, width as nat, height as nat),
        final(buf)@.well_formed(),
{
    let _len: usize = data.len();
    proof {
        lemma_quarter(width as nat, height as nat);
    }
    buf.prepare(width, height);
    let total: usize = width * height;
    let mut i: usize = 0;
    while i < total
        invariant
            i <= total,
            total == width * height,
            data@.len() == total * 3,
            total * 3 <= usize::MAX,
            buf@.width == width,
            buf@.height == height,
            buf@.well_formed(),
            forall|j: int|
                0 <= j < i ==> #[trigger] buf@.y[j] == ycbcr_planes(
                    data@,
                    width as nat,
                    height as nat,
                ).y[j],
        decreases total - i,
    {
        buf.y[i] = color::full_to_limited_y(data[i * 3]);
        i = i + 1;
    }

    let chroma_w: usize = width / 2;
    let chroma_h: usize = height / 2;
    let ghost planes = ycbcr_planes(data@, width as nat, height as nat);
    assert(buf@.y =~= planes.y);
    let mut k: usize = 0;
    let mut cy: usize = 0;
    while cy < chroma_h
        invariant
            cy <= chroma_h,
            k == cy * chroma_w,
            chroma_w == width / 2,
            chroma_h == height / 2,
            width % 2 == 0,
            height % 2 == 0,
            data@.len() == width * height * 3,
            width * height * 3 <= usize::MAX,
            chroma_w * chroma_h <= usize::MAX,
            planes == ycbcr_planes(data@, width as nat, height as nat),
            buf@.width == width,
            buf@.height == height,
            buf@.well_formed(),
            buf@.y == planes.y,
            forall|j: int| 0 <= j < k ==> #[trigger] buf@.u[j] == planes.u[j],
            forall|j: int| 0 <= j < k ==> #[trigger] buf@.v[j] == planes.v[j],
        decreases chroma_h - cy,
    {
        let mut cx: usize = 0;
        while cx < chroma_w
            invariant
                cx <= chroma_w,
                cy < chroma_h,
                k == cy * chroma_w + cx,
                chroma_w == width / 2,
                chroma_h == height / 2,
                width % 2 == 0,
                height % 2 == 0,
                data@.len() == width * height * 3,
                width * height * 3 <= usize::MAX,
                chroma_w * chroma_h <= usize::MAX,
                planes == ycbcr_planes(data@, width as nat, height as nat),
                buf@.width == width,
                buf@.height == height,
                buf@.well_formed(),
                buf@.y == planes.y,
                forall|j: int| 0 <= j < k ==> #[trigger] buf@.u[j] == planes.u[j],
                forall|j: int| 0 <= j < k ==> #[trigger] buf@.v[j] == planes.v[j],
            decreases chroma_w - cx,
        {
            proof {
                lemma_cell(cx as int, cy as int, chroma_w as int, chroma_h as int);
            }
            let cb: u32 = block_mean_at(data, width, height, cx, cy, 1);
            let cr: u32 = block_mean_at(data, width, height, cx, cy, 2);
            buf.u[k] = color::full_to_limited_c(cb as u8);
            buf.v[k] = color::full_to_limited_c(cr as u8);
            k = k + 1;
            cx = cx + 1;
        }
        proof {
            assert((cy + 1) * chroma_w == cy * chroma_w + chroma_w) by (nonlinear_arith);
        }
        cy = cy + 1;
    }
    proof {
        assert(chroma_h * chroma_w == chroma_w * chroma_h) by (nonlinear_arith);
        assert(buf@.u =~= planes.u);
        assert(buf@.v =~= planes.v);
    }
}

fn nv12_to_i420(data: &[u8], width: usize, height: usize, buf: &mut I420Buffer)
    requires
        data@.len() == width * height * 3 / 2,
        width % 2 == 0,
        height % 2 == 0,
    ensures
        final(buf)@ == nv12_planes(data@, width as nat, height as nat),
        final(buf)@.well_formed(),
{
    let len: usize = data.len();
    proof {
        lemma_quarter(width as nat, height as nat);
        lemma_even_area(width as nat, height as nat);
    }
    buf.prepare(width, height);
    let total: usize = width * height;
    let ghost planes = nv12_planes(data@, width as nat, height as nat);
    let mut i: usize = 0;
    while i < total
        invariant
            i <= total,
            total == width * height,
            total <= data@.len(),
            planes == nv12_planes(data@, width as nat, height as nat),
            buf@.width == width,
            buf@.height == height,
            buf@.well_formed(),
            forall|j: int| 0 <= j < i ==> #[trigger] buf@.y[j] == planes.y[j],
        decreases total - i,
    {
        buf.y[i] = data[i];
        i = i + 1;
    }
    assert(buf@.y =~= planes.y);

    let cells: usize = total / 4;
    let mut k: usize = 0;
    while k < cells
        invariant
            k <= cells,
            cells == (width as nat / 2) * (height as nat / 2),
            total == width * height,
            total + 2 * cells == len,
            len == data@.len(),
            planes == nv12_planes(data@, width as nat, height as nat),
            buf@.width == width,
            buf@.height == height,
            buf@.well_formed(),
            buf@.y == planes.y,
            forall|j: int| 0 <= j < k ==> #[trigger] buf@.u[j] == planes.u[j],
            forall|j: int| 0 <= j < k ==> #[trigger] buf@.v[j] == planes.v[j],
        decreases cells - k,
    {
        buf.u[k] = data[total + 2 * k];
        buf.v[k] = data[total + 2 * k + 1];
        k = k + 1;
    }
    assert(buf@.u =~= planes.u);
    assert(buf@.v =~= planes.v);
}

fn luma8_to_i420(data: &[u8], width: usize, height: usize, buf: &mut I420Buffer)
    requires
        data@.len() == width * height,
        width % 2 == 0,
        height % 2 == 0,
    ensures
        final(buf)@ == luma8_planes(data@, width as nat, height as nat),
        final(buf)@.well_formed(),
{
    let total: usize = data.len();
    proof {
        lemma_quarter(width as nat, height as nat);
    }
    buf.prepare(width, height);
    let ghost planes = luma8_planes(data@, width as nat, height as nat);
    let mut i: usize = 0;
    while i < total
        invariant
            i <= total,
            total == width * height,
            total == data@.len(),
            planes == luma8_planes(data@, width as nat, height as nat),
            buf@.width == width,
            buf@.height == height,
            buf@.well_formed(),
            forall|j: int| 0 <= j < i ==> #[trigger] buf@.y[j] == planes.y[j],
        decreases total - i,
    {
        buf.y[i] = data[i];
        i = i + 1;
    }
    assert(buf@.y =~= planes.y);

    let cells: usize = total / 4;
    let mut k: usize = 0;
    while k < cells
        invariant
            k <= cells,
            cells == (width as nat / 2) * (height as nat / 2),
            planes == luma8_planes(data@, width as nat, height as nat),
            buf@.width == width,
            buf@.height == height,
            buf@.well_formed(),
            buf@.y == planes.y,
            forall|j: int| 0 <= j < k ==> #[trigger] buf@.u[j] == planes.u[j],
            forall|j: int| 0 <= j < k ==> #[trigger] buf@.v[j] == planes.v[j],
        decreases cells - k,
    {
        buf.u[k] = 128;
        buf.v[k] = 128;
        k = k + 1;
    }
    assert(buf@.u =~= planes.u);
    assert(buf@.v =~= planes.v);
}

/// A decoded JPEG image: interleaved YCbCr samples at full chroma resolution,
/// and the dimensions the decoder read from its header.
#[derive(Debug)]
pub struct JpegImage {
    pub pixels: Vec<u8>,
    pub dimensions: Option<(u16, u16)>,
}

/// What decoding a JPEG stream to YCbCr gives, where the decoder can be handed
/// the stream: the samples and the dimensions, or the decoder's complaint.
pub uninterp spec fn jpeg_decoded(data: Seq<u8>) -> Result<
    (Seq<u8>, Option<(u16, u16)>),
    Seq<char>,
>;

/// The plain value of a decoding result.
pub open spec fn decoded_view(decoded: Result<JpegImage, String>) -> Result<
    (Seq<u8>, Option<(u16, u16)>),
    Seq<char>,
> {
    match decoded {
        Ok(image) => Ok((image.pixels@, image.dimensions)),
        Err(complaint) => Err(complaint@),
    }
}

/// `zune_jpeg::JpegDecoder::decode` with YCbCr output, and
/// `zune_jpeg::JpegDecoder::info` after it: the result is a function of the
/// stream's bytes alone. Nothing else is claimed of it; callers check the
/// dimensions and the number of samples themselves.
///
/// On a stream that is not [`jpeg::decodable`] the decoder may index out of
/// range or overflow, and so panic.
#[verifier::external_body]
fn decode_jpeg(data: &[u8]) -> (decoded: Result<JpegImage, String>)
    requires
        jpeg::decodable(data@),
    ensures
        decoded_view(decoded) == jpeg_decoded(data@),
{
    let options = DecoderOptions::default().jpeg_set_out_colorspace(ColorSpace::YCbCr);
    let mut decoder = JpegDecoder::new_with_options(std::io::Cursor::new(data), options);
    match decoder.decode() {
        Ok(pixels) => {
            let dimensions = decoder.info().map(|info| (info.width, info.height));
            Ok(JpegImage { pixels, dimensions })
        },
        Err(complaint) => Err(complaint.to_string()),
    }
}

/// Dimensions as they appear in messages.
pub open spec fn dimensions_text(width: nat, height: nat) -> Seq<char> {
    text::decimal(width) + "x"@ + text::decimal(height)
}

/// A message that ends in dimensions.
fn dimensions_message(prefix: &str, width: u32, height: u32) -> (m: String)
    ensures
        m@ == prefix@ + dimensions_text(width as nat, height as nat),
{
    let mut m = prefix.to_owned();
    text::push_decimal(&mut m, width as u128);
    m.append("x");
    text::push_decimal(&mut m, height as u128);
    assert(m@ =~= prefix@ + dimensions_text(width as nat, height as nat));
    m
}

/// The picture of a decoded JPEG image, or why there is none. The dimensions
/// are those of the image itself.
pub open spec fn decoded_planes(
    decoded: Result<(Seq<u8>, Option<(u16, u16)>), Seq<char>>,
) -> Result<Planes, Seq<char>> {
    match decoded {
        Err(complaint) => Err("MJPEG decode failed: "@ + complaint),
        Ok((pixels, None)) => Err("MJPEG decode produced no image info"@),
        Ok((pixels, Some((width, height)))) => {
            if width == 0 || height == 0 || width % 2 != 0 || height % 2 != 0 {
                Err(
                    "MJPEG dimensions unsupported for 4:2:0 output: "@ + dimensions_text(
                        width as nat,
                        height as nat,
                    ),
                )
            } else if pixels.len() != width * height * 3 {
                Err(
                    length_error(
                        "decoded YCbCr"@,
                        pixels.len(),
                        (width * height * 3) as nat,
                    ),
                )
            } else {
                Ok(ycbcr_planes(pixels, width as nat, height as nat))
            }
        },
    }
}

/// The outcome of a conversion: on success the buffer holds the picture, on
/// failure it is untouched and the error carries the message.
pub open spec fn converted(
    expected: Result<Planes, Seq<char>>,
    r: Result<(), MediaError>,
    before: I420Buffer,
    after: I420Buffer,
) -> bool {
    match expected {
        Ok(planes) => r is Ok && after@ == planes && planes.well_formed(),
        Err(message) => {
            &&& r matches Err(e)
            &&& e matches MediaError::Convert(m)
            &&& m@ == message
            &&& after == before
        },
    }
}

/// Converts a decoded JPEG image into planar I420 inside `buf`.
pub fn decoded_to_i420(decoded: Result<JpegImage, String>, buf: &mut I420Buffer) -> (r: Result<
    (),
    MediaError,
>)
    ensures
        converted(decoded_planes(decoded_view(decoded)), r, *old(buf), *final(buf)),
{
    let image = match decoded {
        Ok(image) => image,
        Err(complaint) => {
            let mut m = "MJPEG decode failed: ".to_owned();
            m.append(complaint.as_str());
            return Err(MediaError::Convert(m));
        },
    };
    let (w, h) = match image.dimensions {
        Some(dimensions) => dimensions,
        None => {
            return Err(MediaError::Convert("MJPEG decode produced no image info".to_owned()));
        },
    };
    if w == 0 || h == 0 || w % 2 != 0 || h % 2 != 0 {
        return Err(
            MediaError::Convert(
                dimensions_message(
                    "MJPEG dimensions unsupported for 4:2:0 output: ",
                    w as u32,
                    h as u32,
                ),
            ),
        );
    }
    proof {
        lemma_area_bound(w as nat, h as nat);
    }
    match check_len(image.pixels.as_slice(), w as u128 * h as u128 * 3, "decoded YCbCr") {
        Ok(()) => {},
        Err(e) => {
            return Err(e);
        },
    }
    ycbcr_to_i420(image.pixels.as_slice(), w as usize, h as usize, buf);
    Ok(())
}

/// What a JPEG stream decodes to, or why it does not. A stream that the decoder
/// is not handed is one whose component layout it cannot take, or whose
/// quantizers are too coarse for its size to rule out an overflow: in 3840 by
/// 2160, say, a quantizer of the DC values above 8. [`jpeg`] tells where the
/// limits lie.
pub open spec fn stream_decoded(data: Seq<u8>) -> Result<
    (Seq<u8>, Option<(u16, u16)>),
    Seq<char>,
> {
    if jpeg::decodable(data) {
        jpeg_decoded(data)
    } else {
        Err("unsupported layout or quantization"@)
    }
}

/// Decodes a JPEG stream.
fn decode_stream(data: &[u8]) -> (decoded: Result<JpegImage, String>)
    ensures
        decoded_view(decoded) == stream_decoded(data@),
{
    if jpeg::is_decodable(data) {
        decode_jpeg(data)
    } else {
        Err("unsupported layout or quantization".to_owned())
    }
}

/// The picture of a frame, or why it cannot be converted.
pub open spec fn frame_planes(
    format: PixelFormat,
    data: Seq<u8>,
    width: nat,
    height: nat,
) -> Result<Planes, Seq<char>> {
    if format is Mjpeg {
        decoded_planes(stream_decoded(data))
    } else if width == 0 || height == 0 {
        Err("zero dimension: "@ + dimensions_text(width, height))
    } else if width % 2 != 0 || height % 2 != 0 {
        Err(
            "odd dimensions unsupported for 4:2:0 output: "@ + dimensions_text(
                width,
                height,
            ),
        )
    } else if data.len() != payload_len(format, width, height) {
        Err(length_error(payload_label(format), data.len(), payload_len(format, width, height)))
    } else {
        Ok(
            match format {
                PixelFormat::Rgb24 => rgb24_planes(data, width, height),
                PixelFormat::Yuyv => yuyv_planes(data, width, height),
                PixelFormat::Nv12 => nv12_planes(data, width, height),
                _ => luma8_planes(data, width, height),
            },
        )
    }
}

/// How many bytes a frame of raw pixels has.
pub open spec fn payload_len(format: PixelFormat, width: nat, height: nat) -> nat {
    match format {
        PixelFormat::Rgb24 => width * height * 3,
        PixelFormat::Yuyv => width * height * 2,
        PixelFormat::Nv12 => width * height * 3 / 2,
        _ => width * height,
    }
}

/// How a raw format is called in messages about its length.
pub open spec fn payload_label(format: PixelFormat) -> Seq<char> {
    match format {
        PixelFormat::Rgb24 => "RGB24"@,
        PixelFormat::Yuyv => "YUYV"@,
        PixelFormat::Nv12 => "NV12"@,
        _ => "Luma8"@,
    }
}

/// Frame dimensions keep every payload length within 128 bits.
proof fn lemma_area_bound(width: nat, height: nat)
    requires
        width <= u32::MAX,
        height <= u32::MAX,
    ensures
        0 <= width * height <= u32::MAX * u32::MAX,
{
    assert(0 <= width * height <= u32::MAX * u32::MAX) by (nonlinear_arith)
        requires
            0 <= width <= u32::MAX,
            0 <= height <= u32::MAX,
    ;
}

/// An even-sided area is divisible by four.
proof fn lemma_even_area(width: nat, height: nat)
    requires
        width % 2 == 0,
        height % 2 == 0,
    ensures
        width * height % 4 == 0,
        width * height * 3 / 2 == width * height + 2 * ((width / 2) * (height / 2)),
{
    let a = width / 2;
    let b = height / 2;
    assert(width == 2 * a && height == 2 * b);
    assert((2 * a) * (2 * b) == 4 * (a * b)) by (nonlinear_arith);
}

/// Converts a captured frame into planar I420 inside `buf`.
///
/// A JPEG frame takes its dimensions from the image itself; raw frames from
/// their header. Raw frames with a zero or odd dimension are rejected, since
/// 4:2:0 chroma needs even width and height, as are payloads whose length does
/// not match their format and JPEG streams that do not decode. A rejected frame
/// leaves `buf` as it was.
pub fn to_i420(frame: &VideoFrame, buf: &mut I420Buffer) -> (r: Result<(), MediaError>)
    ensures
        converted(
            frame_planes(
                frame.format,
                video::bytes_contents(frame.data),
                frame.width as nat,
                frame.height as nat,
            ),
            r,
            *old(buf),
            *final(buf),
        ),
{
    let data = video::bytes_as_slice(&frame.data);
    if frame.format == PixelFormat::Mjpeg {
        return decoded_to_i420(decode_stream(data), buf);
    }
    if frame.width == 0 || frame.height == 0 {
        return Err(
            MediaError::Convert(dimensions_message("zero dimension: ", frame.width, frame.height)),
        );
    }
    if frame.width % 2 != 0 || frame.height % 2 != 0 {
        return Err(
            MediaError::Convert(
                dimensions_message(
                    "odd dimensions unsupported for 4:2:0 output: ",
                    frame.width,
                    frame.height,
                ),
            ),
        );
    }
    proof {
        lemma_area_bound(frame.width as nat, frame.height as nat);
    }
    let area: u128 = frame.width as u128 * frame.height as u128;
    let checked = match frame.format {
        PixelFormat::Rgb24 => check_len(data, area * 3, "RGB24"),
        PixelFormat::Yuyv => check_len(data, area * 2, "YUYV"),
        PixelFormat::Nv12 => check_len(data, area * 3 / 2, "NV12"),
        _ => check_len(data, area, "Luma8"),
    };
    match checked {
        Ok(()) => {},
        Err(e) => {
            return Err(e);
        },
    }
    let width: usize = frame.width as usize;
    let height: usize = frame.height as usize;
    match frame.format {
        PixelFormat::Rgb24 => rgb24_to_i420(data, width, height, buf),
        PixelFormat::Yuyv => yuyv_to_i420(data, width, height, buf),
        PixelFormat::Nv12 => nv12_to_i420(data, width, height, buf),
        _ => luma8_to_i420(data, width, height, buf),
    }
    Ok(())
}

/// Whether every sample of a picture is in the limited BT.601 ranges.
pub open spec fn is_limited_range(planes: Planes) -> bool {
    &&& forall|i: int|
        0 <= i < planes.y.len() ==> color::luma_in_range(#[trigger] planes.y[i] as int)
    &&& forall|k: int|
        0 <= k < planes.u.len() ==> color::chroma_in_range(#[trigger] planes.u[k] as int)
    &&& forall|k: int|
        0 <= k < planes.v.len() ==> color::chroma_in_range(#[trigger] planes.v[k] as int)
}

/// Every RGB frame and every JPEG frame that converts lands in limited range.
pub proof fn law_rgb_and_jpeg_convert_to_limited_range(
    format: PixelFormat,
    data: Seq<u8>,
    width: nat,
    height: nat,
)
    requires
        format is Rgb24 || format is Mjpeg,
    ensures
        frame_planes(format, data, width, height) matches Ok(planes) ==> is_limited_range(planes),
{
    if let Ok(planes) = frame_planes(format, data, width, height) {
        if format is Rgb24 {
            assert forall|i: int| 0 <= i < planes.y.len() implies color::luma_in_range(
                #[trigger] planes.y[i] as int,
            ) by {
                color::law_rgb_is_limited_range(
                    data[3 * i] as int,
                    data[3 * i + 1] as int,
                    data[3 * i + 2] as int,
                );
            }
            assert forall|k: int| 0 <= k < planes.u.len() implies color::chroma_in_range(
                #[trigger] planes.u[k] as int,
            ) && color::chroma_in_range(planes.v[k] as int) by {
                let cx = k % (width as int / 2);
                let cy = k / (width as int / 2);
                color::law_rgb_is_limited_range(
                    block_mean(data, width as int, cx, cy, 0),
                    block_mean(data, width as int, cx, cy, 1),
                    block_mean(data, width as int, cx, cy, 2),
                );
            }
            assert forall|k: int| 0 <= k < planes.v.len() implies color::chroma_in_range(
                #[trigger] planes.v[k] as int,
            ) by {
                assert(color::chroma_in_range(planes.u[k] as int));
            }
        }
    }
}

/// A frame whose every pixel is a gray has neutral chroma throughout.
pub proof fn law_gray_rgb_has_neutral_chroma(data: Seq<u8>, width: nat, height: nat)
    requires
        data.len() == width * height * 3,
        forall|i: int|
            0 <= i < width * height ==> #[trigger] data[3 * i] == data[3 * i + 1] && data[3 * i]
                == data[3 * i + 2],
    ensures
        forall|k: int|
            0 <= k < rgb24_planes(data, width, height).u.len() ==> #[trigger] rgb24_planes(
                data,
                width,
                height,
            ).u[k] == 128,
        forall|k: int|
            0 <= k < rgb24_planes(data, width, height).v.len() ==> #[trigger] rgb24_planes(
                data,
                width,
                height,
            ).v[k] == 128,
{
    let planes = rgb24_planes(data, width, height);
    let w = width as int;
    let h = height as int;
    assert forall|k: int| 0 <= k < planes.u.len() implies #[trigger] planes.u[k] == 128
        && planes.v[k] == 128 by {
        let cw = w / 2;
        let cx = k % cw;
        let cy = k / cw;
        lemma_cell_of_position(k, cw, h / 2);
        assert forall|dx: int, dy: int| 0 <= dx < 2 && 0 <= dy < 2 implies {
            &&& #[trigger] packed_sample(data, w, 2 * cx + dx, 2 * cy + dy, 1) == packed_sample(
                data,
                w,
                2 * cx + dx,
                2 * cy + dy,
                0,
            )
            &&& packed_sample(data, w, 2 * cx + dx, 2 * cy + dy, 2) == packed_sample(
                data,
                w,
                2 * cx + dx,
                2 * cy + dy,
                0,
            )
        } by {
            lemma_sample_index(2 * cx + dx, 2 * cy + dy, w, h, 0);
            let i = (2 * cy + dy) * w + (2 * cx + dx);
            assert(data[3 * i] == data[3 * i + 1]);
        }
        assert(packed_sample(data, w, 2 * cx + 0, 2 * cy + 0, 1) == packed_sample(
            data,
            w,
            2 * cx,
            2 * cy,
            0,
        ));
        assert(packed_sample(data, w, 2 * cx + 1, 2 * cy + 0, 1) == packed_sample(
            data,
            w,
            2 * cx + 1,
            2 * cy,
            0,
        ));
        assert(packed_sample(data, w, 2 * cx + 0, 2 * cy + 1, 1) == packed_sample(
            data,
            w,
            2 * cx,
            2 * cy + 1,
            0,
        ));
        assert(packed_sample(data, w, 2 * cx + 1, 2 * cy + 1, 1) == packed_sample(
            data,
            w,
            2 * cx + 1,
            2 * cy + 1,
            0,
        ));
        color::law_gray_is_neutral(block_mean(data, w, cx, cy, 0));
    }
    assert forall|k: int| 0 <= k < planes.v.len() implies #[trigger] planes.v[k] == 128 by {
        assert(planes.u[k] == 128);
    }
}

/// The cell of a position inside the chroma plane lies inside the chroma grid.
proof fn lemma_cell_of_position(k: int, chroma_w: int, chroma_h: int)
    requires
        0 <= k < chroma_w * chroma_h,
        0 <= chroma_w,
        0 <= chroma_h,
    ensures
        0 <= k % chroma_w < chroma_w,
        0 <= k / chroma_w < chroma_h,
{
    assert(chroma_w > 0) by (nonlinear_arith)
        requires
            0 <= k < chroma_w * chroma_h,
            0 <= chroma_w,
    ;
    assert(0 <= k % chroma_w < chroma_w && 0 <= k / chroma_w < chroma_h) by (nonlinear_arith)
        requires
            0 <= k < chroma_w * chroma_h,
            0 < chroma_w,
    ;
}

/// Raw YUV and grayscale luma passes through unchanged: each luma sample of the
/// picture is a byte of the payload.
pub proof fn law_raw_luma_is_kept(format: PixelFormat, data: Seq<u8>, width: nat, height: nat)
    requires
        format is Yuyv || format is Nv12 || format is Luma8,
    ensures
        frame_planes(format, data, width, height) matches Ok(planes) ==> forall|i: int|
            0 <= i < width * height ==> #[trigger] planes.y[i] == data[if format is Yuyv {
                2 * i
            } else {
                i
            }],
{
    if format is Nv12 && width % 2 == 0 && height % 2 == 0 {
        lemma_even_area(width, height);
    }
}

/// The header dimensions of a JPEG frame do not matter.
pub proof fn law_jpeg_dimensions_win(data: Seq<u8>, w1: nat, h1: nat, w2: nat, h2: nat)
    ensures
        frame_planes(PixelFormat::Mjpeg, data, w1, h1) == frame_planes(
            PixelFormat::Mjpeg,
            data,
            w2,
            h2,
        ),
{
}

/// Every picture a frame converts to has even, nonzero dimensions, and planes
/// of the sizes they call for.
pub proof fn law_pictures_are_well_formed(
    format: PixelFormat,
    data: Seq<u8>,
    width: nat,
    height: nat,
)
    ensures
        frame_planes(format, data, width, height) matches Ok(planes) ==> {
            &&& planes.well_formed()
            &&& planes.width > 0
            &&& planes.height > 0
        },
{
    if width % 2 == 0 && height % 2 == 0 {
        lemma_even_area(width, height);
    }
}

/// The luma of a JPEG picture is pixel by pixel that of the decoded image, scaled
/// from 0 to 255 onto 16 to 235, to the nearest.
pub proof fn law_jpeg_luma(pixels: Seq<u8>, width: u16, height: u16, x: int, y: int)
    requires
        width % 2 == 0,
        height % 2 == 0,
        pixels.len() == width * height * 3,
        0 <= x < width,
        0 <= y < height,
    ensures
        ({
            let k = y * width + x;
            &&& decoded_planes(Ok((pixels, Some((width, height))))) matches Ok(planes)
            &&& planes.width == width
            &&& planes.height == height
            &&& planes.y.len() == width * height
            &&& 0 <= k < planes.y.len()
            &&& -127 <= 255 * (planes.y[k] - 16) - 219 * pixels[3 * k] <= 127
        }),
{
    lemma_sample_index(x, y, width as int, height as int, 0);
    color::law_full_range_is_compressed(pixels[3 * (y * width + x)] as int);
    color::law_compression_is_rounded_to_nearest(pixels[3 * (y * width + x)] as int);
}

/// Each chroma sample of a JPEG picture comes from the four pixels of its own
/// cell: Cb and Cr averaged over them, to the nearest, and then scaled from 0 to
/// 255 onto 16 to 240, to the nearest.
pub proof fn law_jpeg_chroma(pixels: Seq<u8>, width: u16, height: u16, cx: int, cy: int)
    requires
        width % 2 == 0,
        height % 2 == 0,
        pixels.len() == width * height * 3,
        0 <= cx < width / 2,
        0 <= cy < height / 2,
    ensures
        ({
            let top = (2 * cy) * width + 2 * cx;
            let bottom = (2 * cy + 1) * width + 2 * cx;
            let cb = pixels[3 * top + 1] + pixels[3 * (top + 1) + 1] + pixels[3 * bottom + 1]
                + pixels[3 * (bottom + 1) + 1];
            let cr = pixels[3 * top + 2] + pixels[3 * (top + 1) + 2] + pixels[3 * bottom + 2]
                + pixels[3 * (bottom + 1) + 2];
            let k = cy * (width as int / 2) + cx;
            &&& decoded_planes(Ok((pixels, Some((width, height))))) matches Ok(planes)
            &&& planes.u.len() == (width / 2) * (height / 2)
            &&& planes.v.len() == (width / 2) * (height / 2)
            &&& 0 <= k < planes.u.len()
            &&& -127 <= 255 * (planes.u[k] - 16) - 224 * ((cb + 2) / 4) <= 127
            &&& -127 <= 255 * (planes.v[k] - 16) - 224 * ((cr + 2) / 4) <= 127
        }),
{
    let w = width as int;
    let h = height as int;
    lemma_cell(cx, cy, w / 2, h / 2);
    lemma_sample_index(2 * cx, 2 * cy, w, h, 1);
    color::law_full_range_is_compressed(block_mean(pixels, w, cx, cy, 1));
    color::law_full_range_is_compressed(block_mean(pixels, w, cx, cy, 2));
    color::law_compression_is_rounded_to_nearest(block_mean(pixels, w, cx, cy, 1));
    color::law_compression_is_rounded_to_nearest(block_mean(pixels, w, cx, cy, 2));
}

/// A cell of one color keeps that color, whatever the rest of the image holds:
/// where its four pixels have the same Cb or Cr, that value is the one that is
/// scaled.
pub proof fn law_jpeg_cells_are_independent(
    pixels: Seq<u8>,
    width: u16,
    height: u16,
    cx: int,
    cy: int,
    c: u8,
)
    requires
        width % 2 == 0,
        height % 2 == 0,
        pixels.len() == width * height * 3,
        0 <= cx < width / 2,
        0 <= cy < height / 2,
    ensures
        ({
            let top = (2 * cy) * width + 2 * cx;
            let bottom = (2 * cy + 1) * width + 2 * cx;
            let k = cy * (width as int / 2) + cx;
            &&& decoded_planes(Ok((pixels, Some((width, height))))) matches Ok(planes)
            &&& pixels[3 * top + 1] == c && pixels[3 * (top + 1) + 1] == c && pixels[3 * bottom + 1]
                == c && pixels[3 * (bottom + 1) + 1] == c ==> -127 <= 255 * (planes.u[k] - 16) - 224
                * c <= 127
            &&& pixels[3 * top + 2] == c && pixels[3 * (top + 1) + 2] == c && pixels[3 * bottom + 2]
                == c && pixels[3 * (bottom + 1) + 2] == c ==> -127 <= 255 * (planes.v[k] - 16) - 224
                * c <= 127
        }),
{
    law_jpeg_chroma(pixels, width, height, cx, cy);
    let top = (2 * cy) * width + 2 * cx;
    let bottom = (2 * cy + 1) * width + 2 * cx;
    let cb = pixels[3 * top + 1] + pixels[3 * (top + 1) + 1] + pixels[3 * bottom + 1] + pixels[3 * (
    bottom + 1) + 1];
    let cr = pixels[3 * top + 2] + pixels[3 * (top + 1) + 2] + pixels[3 * bottom + 2] + pixels[3 * (
    bottom + 1) + 2];
    if cb == 4 * c {
        assert((cb + 2) / 4 == c);
    }
    if cr == 4 * c {
        assert((cr + 2) / 4 == c);
    }
}

/// Pixel pair `cx` of row `y` of a YUYV frame is four bytes: two lumas with the
/// pair's Cb after the first and its Cr after the second. The lumas are kept, and
/// the chromas are averaged with those of the same pair in the other row of the
/// cell, halves rounded up.
pub proof fn law_yuyv_layout(data: Seq<u8>, width: nat, height: nat, cx: int, cy: int)
    requires
        width % 2 == 0,
        height % 2 == 0,
        data.len() == width * height * 2,
        0 <= cx < width / 2,
        0 <= cy < height / 2,
    ensures
        ({
            let top = 4 * (cy * width + cx);
            let bottom = top + 2 * width;
            let k = cy * (width as int / 2) + cx;
            let i = (2 * cy) * width + 2 * cx;
            &&& frame_planes(PixelFormat::Yuyv, data, width, height) matches Ok(planes)
            &&& planes.width == width
            &&& planes.height == height
            &&& planes.y.len() == width * height
            &&& planes.u.len() == (width / 2) * (height / 2)
            &&& planes.v.len() == (width / 2) * (height / 2)
            &&& 0 <= k < planes.u.len()
            &&& 0 <= i
            &&& i + width + 1 < planes.y.len()
            &&& planes.y[i] == data[top]
            &&& planes.y[i + 1] == data[top + 2]
            &&& planes.y[i + width] == data[bottom]
            &&& planes.y[i + width + 1] == data[bottom + 2]
            &&& 0 <= 2 * planes.u[k] - (data[top + 1] + data[bottom + 1]) <= 1
            &&& 0 <= 2 * planes.v[k] - (data[top + 3] + data[bottom + 3]) <= 1
        }),
{
    let w = width as int;
    let h = height as int;
    lemma_cell(cx, cy, w / 2, h / 2);
    lemma_sample_index(2 * cx + 1, 2 * cy + 1, w, h, 0);
    assert((2 * cy) * w == 2 * (cy * w)) by (nonlinear_arith);
    assert((2 * cy + 1) * w == 2 * (cy * w) + w) by (nonlinear_arith);
    assert((2 * cy) * (2 * w) == 4 * (cy * w)) by (nonlinear_arith);
    assert((2 * cy + 1) * (2 * w) == 4 * (cy * w) + 2 * w) by (nonlinear_arith);
    assert(0 <= cy * w) by (nonlinear_arith)
        requires
            0 <= cy,
            0 <= w,
    ;
}

/// An NV12 frame is its luma plane, row by row, and then the chroma cells, row by
/// row, each a Cb followed by a Cr. All of them are kept.
pub proof fn law_nv12_layout(data: Seq<u8>, width: nat, height: nat, x: int, y: int)
    requires
        width % 2 == 0,
        height % 2 == 0,
        2 * data.len() == 3 * (width * height),
        0 <= x < width,
        0 <= y < height,
    ensures
        ({
            let luma = width * height;
            let cell = luma + (y / 2) * width + 2 * (x / 2);
            let k = (y / 2) * (width as int / 2) + x / 2;
            &&& frame_planes(PixelFormat::Nv12, data, width, height) matches Ok(planes)
            &&& planes.width == width
            &&& planes.height == height
            &&& planes.y.len() == width * height
            &&& planes.u.len() == (width / 2) * (height / 2)
            &&& planes.v.len() == (width / 2) * (height / 2)
            &&& 0 <= k < planes.u.len()
            &&& planes.y[y * width + x] == data[y * width + x]
            &&& planes.u[k] == data[cell]
            &&& planes.v[k] == data[cell + 1]
        }),
{
    let w = width as int;
    let h = height as int;
    lemma_even_area(width, height);
    lemma_cell(x / 2, y / 2, w / 2, h / 2);
    lemma_sample_index(x, y, w, h, 0);
    assert(2 * ((y / 2) * (w / 2)) == (y / 2) * w) by (nonlinear_arith)
        requires
            w == 2 * (w / 2),
    ;
}

/// A grayscale frame is its luma plane, row by row, which is kept; it has no
/// color.
pub proof fn law_luma8_layout(data: Seq<u8>, width: nat, height: nat, x: int, y: int)
    requires
        width % 2 == 0,
        height % 2 == 0,
        data.len() == width * height,
        0 <= x < width,
        0 <= y < height,
    ensures
        ({
            let k = (y / 2) * (width as int / 2) + x / 2;
            &&& frame_planes(PixelFormat::Luma8, data, width, height) matches Ok(planes)
            &&& planes.width == width
            &&& planes.height == height
            &&& planes.y.len() == width * height
            &&& planes.u.len() == (width / 2) * (height / 2)
            &&& planes.v.len() == (width / 2) * (height / 2)
            &&& 0 <= k < planes.u.len()
            &&& planes.y[y * width + x] == data[y * width + x]
            &&& planes.u[k] == 128
            &&& planes.v[k] == 128
        }),
{
    lemma_cell(x / 2, y / 2, width as int / 2, height as int / 2);
    lemma_sample_index(x, y, width as int, height as int, 0);
}

/// The luma of an RGB frame is pixel by pixel the BT.601 combination of that
/// pixel's red, green and blue, to the nearest.
pub proof fn law_rgb_luma(data: Seq<u8>, width: nat, height: nat, x: int, y: int)
    requires
        width % 2 == 0,
        height % 2 == 0,
        data.len() == width * height * 3,
        0 <= x < width,
        0 <= y < height,
    ensures
        ({
            let k = y * width + x;
            &&& frame_planes(PixelFormat::Rgb24, data, width, height) matches Ok(planes)
            &&& planes.width == width
            &&& planes.height == height
            &&& planes.y.len() == width * height
            &&& 0 <= k < planes.y.len()
            &&& -128 <= 66 * data[3 * k] + 129 * data[3 * k + 1] + 25 * data[3 * k + 2] - 256 * (
            planes.y[k] - 16) < 128
        }),
{
    lemma_sample_index(x, y, width as int, height as int, 0);
    let k = y * width + x;
    let (r, g, b) = (data[3 * k] as int, data[3 * k + 1] as int, data[3 * k + 2] as int);
    color::law_rgb_is_limited_range(r, g, b);
    color::law_bt601_is_rounded_to_nearest(r, g, b);
}

/// Each chroma sample of an RGB frame comes from the four pixels of its own cell:
/// the BT.601 combination of their average color, to the nearest.
pub proof fn law_rgb_chroma(data: Seq<u8>, width: nat, height: nat, cx: int, cy: int)
    requires
        width % 2 == 0,
        height % 2 == 0,
        data.len() == width * height * 3,
        0 <= cx < width / 2,
        0 <= cy < height / 2,
    ensures
        ({
            let top = (2 * cy) * width + 2 * cx;
            let bottom = (2 * cy + 1) * width + 2 * cx;
            let red = data[3 * top] + data[3 * (top + 1)] + data[3 * bottom] + data[3 * (bottom
                + 1)];
            let green = data[3 * top + 1] + data[3 * (top + 1) + 1] + data[3 * bottom + 1] + data[3
                * (bottom + 1) + 1];
            let blue = data[3 * top + 2] + data[3 * (top + 1) + 2] + data[3 * bottom + 2] + data[3
                * (bottom + 1) + 2];
            let (r, g, b) = ((red + 2) / 4, (green + 2) / 4, (blue + 2) / 4);
            let k = cy * (width as int / 2) + cx;
            &&& frame_planes(PixelFormat::Rgb24, data, width, height) matches Ok(planes)
            &&& planes.u.len() == (width / 2) * (height / 2)
            &&& planes.v.len() == (width / 2) * (height / 2)
            &&& 0 <= k < planes.u.len()
            &&& -128 <= 112 * b - 74 * g - 38 * r - 256 * (planes.u[k] - 128) < 128
            &&& -128 <= 112 * r - 94 * g - 18 * b - 256 * (planes.v[k] - 128) < 128
        }),
{
    let w = width as int;
    let h = height as int;
    lemma_cell(cx, cy, w / 2, h / 2);
    lemma_sample_index(2 * cx, 2 * cy, w, h, 1);
    let r = block_mean(data, w, cx, cy, 0);
    let g = block_mean(data, w, cx, cy, 1);
    let b = block_mean(data, w, cx, cy, 2);
    color::law_rgb_is_limited_range(r, g, b);
    color::law_bt601_is_rounded_to_nearest(r, g, b);
}

/// A raw frame is converted exactly when both dimensions are even and not zero
/// and its payload has as many bytes as its format takes: three per pixel, two,
/// one and a half, or one.
pub proof fn law_which_raw_frames_convert(
    format: PixelFormat,
    data: Seq<u8>,
    width: nat,
    height: nat,
)
    requires
        !(format is Mjpeg),
    ensures
        frame_planes(format, data, width, height) is Ok <==> {
            &&& width > 0 && width % 2 == 0
            &&& height > 0 && height % 2 == 0
            &&& 2 * data.len() == (match format {
                PixelFormat::Rgb24 => 6int,
                PixelFormat::Yuyv => 4int,
                PixelFormat::Nv12 => 3int,
                _ => 2int,
            }) * (width * height)
        },
        frame_planes(format, data, width, height) matches Ok(planes) ==> planes.width == width
            && planes.height == height,
{
    if width % 2 == 0 && height % 2 == 0 {
        lemma_even_area(width, height);
    }
}

/// A JPEG frame that the decoder can be handed is converted exactly when it
/// decodes, to an image whose dimensions are even and not zero, with three samples
/// for each of its pixels. The picture has the dimensions of that image.
pub proof fn law_which_jpeg_frames_convert(data: Seq<u8>, width: nat, height: nat)
    requires
        jpeg::decodable(data),
    ensures
        match jpeg_decoded(data) {
            Err(complaint) => frame_planes(PixelFormat::Mjpeg, data, width, height) == Err::<
                Planes,
                Seq<char>,
            >("MJPEG decode failed: "@ + complaint),
            Ok((pixels, dimensions)) => {
                &&& frame_planes(PixelFormat::Mjpeg, data, width, height) == decoded_planes(
                    Ok((pixels, dimensions)),
                )
                &&& decoded_planes(Ok((pixels, dimensions))) is Ok <==> {
                    &&& dimensions matches Some((w, h))
                    &&& w > 0 && w % 2 == 0
                    &&& h > 0 && h % 2 == 0
                    &&& pixels.len() == 3 * (w * h)
                }
                &&& decoded_planes(Ok((pixels, dimensions))) matches Ok(planes) ==> dimensions
                    == Some((planes.width as u16, planes.height as u16))
            },
        },
{
}

/// A conversion that is refused says why and leaves the buffer alone; one that is
/// not leaves the picture in it.
pub proof fn law_refused_frames_leave_the_buffer(
    expected: Result<Planes, Seq<char>>,
    r: Result<(), MediaError>,
    before: I420Buffer,
    after: I420Buffer,
)
    requires
        converted(expected, r, before, after),
    ensures
        r is Ok <==> expected is Ok,
        expected matches Ok(planes) ==> after@ == planes,
        expected matches Err(message) ==> {
            &&& after == before
            &&& r matches Err(e)
            &&& e.text() == "pixel conversion failed: "@ + message
        },
{
}

/// What is said of a raw frame that is refused: a zero dimension comes before an
/// odd one, and both come before the length of the payload.
pub proof fn law_raw_refusals(format: PixelFormat, data: Seq<u8>, width: nat, height: nat)
    requires
        !(format is Mjpeg),
    ensures
        frame_planes(format, data, width, height) matches Err(message) ==> {
            let size = text::decimal(width) + "x"@ + text::decimal(height);
            if width * height == 0 {
                message == "zero dimension: "@ + size
            } else if !(width % 2 == 0 && height % 2 == 0) {
                message == "odd dimensions unsupported for 4:2:0 output: "@ + size
            } else {
                let (name, bytes) = match format {
                    PixelFormat::Rgb24 => ("RGB24"@, width * height * 3),
                    PixelFormat::Yuyv => ("YUYV"@, width * height * 2),
                    PixelFormat::Nv12 => ("NV12"@, width * height + width * height / 2),
                    _ => ("Luma8"@, width * height),
                };
                message == name + " payload is "@ + text::decimal(data.len()) + " bytes, expected "@
                    + text::decimal(bytes as nat)
            }
        },
{
    assert(width * height == 0 <==> width == 0 || height == 0) by (nonlinear_arith);
    if width % 2 == 0 && height % 2 == 0 {
        lemma_even_area(width, height);
    }
}

/// What is said of a decoded image that is refused: the lack of dimensions comes
/// before what is wrong with them, and that before the number of samples.
pub proof fn law_jpeg_refusals(pixels: Seq<u8>, dimensions: Option<(u16, u16)>)
    ensures
        decoded_planes(Ok((pixels, dimensions))) matches Err(message) ==> match dimensions {
            None => message == "MJPEG decode produced no image info"@,
            Some((w, h)) => if w * h == 0 || w % 2 == 1 || h % 2 == 1 {
                message == "MJPEG dimensions unsupported for 4:2:0 output: "@ + (text::decimal(
                    w as nat,
                ) + "x"@ + text::decimal(h as nat))
            } else {
                message == "decoded YCbCr payload is "@ + text::decimal(pixels.len())
                    + " bytes, expected "@ + text::decimal((w * h * 3) as nat)
            },
        },
{
    if let Some((w, h)) = dimensions {
        assert(w * h == 0 <==> w == 0 || h == 0) by (nonlinear_arith);
        reveal_strlit("decoded YCbCr");
        reveal_strlit(" payload is ");
        reveal_strlit("decoded YCbCr payload is ");
        assert("decoded YCbCr"@ + " payload is "@ =~= "decoded YCbCr payload is "@);
    }
}

/// A new buffer holds no picture.
pub proof fn law_new_buffers_are_empty()
    ensures
        no_picture().width == 0,
        no_picture().height == 0,
        no_picture().y.len() == 0,
        no_picture().u.len() == 0,
        no_picture().v.len() == 0,
{
}

/// A decoded image is taken as it is: its samples in order, and its width before
/// its height.
pub proof fn law_decoded_images_are_taken_as_they_are(image: JpegImage, complaint: String)
    ensures
        decoded_view(Ok(image)) == Ok::<(Seq<u8>, Option<(u16, u16)>), Seq<char>>(
            (image.pixels@, image.dimensions),
        ),
        decoded_view(Err(complaint)) == Err::<(Seq<u8>, Option<(u16, u16)>), Seq<char>>(
            complaint@,
        ),
{
}

/// A JPEG frame that the decoder cannot be handed is refused.
pub proof fn law_undecodable_frames_are_refused(data: Seq<u8>, width: nat, height: nat)
    requires
        !jpeg::decodable(data),
    ensures
        frame_planes(PixelFormat::Mjpeg, data, width, height) == Err::<Planes, Seq<char>>(
            "MJPEG decode failed: "@ + "unsupported layout or quantization"@,
        ),
{
}

} // verus!
