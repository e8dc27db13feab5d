//! Captured frames and the extraction of packed images from strided planes.

use vstd::prelude::*;

use crate::error::FrameError;
use crate::types::Format;

verus! {

// ---------------------------------------------------------------------------
// Strided planes
// ---------------------------------------------------------------------------

/// The bytes of an image of `rows` rows of `row_bytes` bytes each, read from
/// a plane whose rows start `stride` bytes apart, laid out row after row with
/// nothing between them.
pub open spec fn packed_rows(src: Seq<u8>, rows: nat, row_bytes: nat, stride: nat) -> Seq<u8>
    decreases rows,
{
    if rows == 0 {
        Seq::empty()
    } else {
        let r = (rows - 1) as nat;
        packed_rows(src, r, row_bytes, stride) + src.subrange((r * stride) as int, (r * stride + row_bytes) as int)
    }
}

/// A plane of `len` bytes holds `rows` rows of `row_bytes` bytes that start
/// `stride` bytes apart: it is `rows * stride` bytes long at least, and a row
/// fits within its stride.
pub open spec fn plane_covers(len: nat, rows: nat, row_bytes: nat, stride: nat) -> bool {
    &&& rows * stride <= len
    &&& (rows == 0 || row_bytes <= stride)
}

proof fn lemma_row_end_within(row: nat, rows: nat, row_bytes: nat, stride: nat)
    requires
        row < rows,
        row_bytes <= stride,
    ensures
        row * stride + row_bytes <= rows * stride,
        row * stride + stride == (row + 1) * stride,
{
    assert((row + 1) * stride <= rows * stride) by (nonlinear_arith)
        requires
            row + 1 <= rows,
    ;
    assert(row * stride + stride == (row + 1) * stride) by (nonlinear_arith);
}

/// The length of a packed image, and where each of its bytes comes from.
pub proof fn lemma_packed_rows_index(src: Seq<u8>, rows: nat, row_bytes: nat, stride: nat)
    requires
        plane_covers(src.len(), rows, row_bytes, stride),
    ensures
        packed_rows(src, rows, row_bytes, stride).len() == rows * row_bytes,
        forall|r: int, c: int|
            0 <= r < rows && 0 <= c < row_bytes ==> #[trigger] packed_rows(
                src,
                rows,
                row_bytes,
                stride,
            )[r * row_bytes + c] == src[r * stride + c],
    decreases rows,
{
    if rows > 0 {
        let last = (rows - 1) as nat;
        assert(plane_covers(src.len(), last, row_bytes, stride)) by {
            assert(last * stride <= rows * stride) by (nonlinear_arith)
                requires
                    last <= rows,
            ;
        }
        lemma_packed_rows_index(src, last, row_bytes, stride);
        lemma_row_end_within(last, rows, row_bytes, stride);
        assert(last * row_bytes + row_bytes == rows * row_bytes) by (nonlinear_arith)
            requires
                last + 1 == rows,
        ;
        let p = packed_rows(src, rows, row_bytes, stride);
        let q = packed_rows(src, last, row_bytes, stride);
        assert forall|r: int, c: int| 0 <= r < rows && 0 <= c < row_bytes implies #[trigger] p[r
            * row_bytes + c] == src[r * stride + c] by {
            if r < last {
                assert(r * row_bytes + c < last * row_bytes) by (nonlinear_arith)
                    requires
                        0 <= r < last,
                        0 <= c < row_bytes,
                ;
                assert(p[r * row_bytes + c] == q[r * row_bytes + c]);
            } else {
                assert(r == last);
            }
        }
    }
}

/// When rows follow each other with no gap, the packed image is the start of
/// the plane.
pub proof fn lemma_packed_rows_contiguous(src: Seq<u8>, rows: nat, row_bytes: nat)
    requires
        rows * row_bytes <= src.len(),
    ensures
        packed_rows(src, rows, row_bytes, row_bytes) == src.subrange(0, (rows * row_bytes) as int),
    decreases rows,
{
    if rows > 0 {
        let last = (rows - 1) as nat;
        assert(last * row_bytes + row_bytes == rows * row_bytes) by (nonlinear_arith)
            requires
                last + 1 == rows,
        ;
        assert(last * row_bytes <= rows * row_bytes) by (nonlinear_arith)
            requires
                last <= rows,
        ;
        lemma_packed_rows_contiguous(src, last, row_bytes);
        assert(packed_rows(src, rows, row_bytes, row_bytes) =~= src.subrange(
            0,
            (rows * row_bytes) as int,
        ));
    } else {
        assert(rows * row_bytes == 0) by (nonlinear_arith)
            requires
                rows == 0,
        ;
        assert(packed_rows(src, rows, row_bytes, row_bytes) =~= src.subrange(
            0,
            (rows * row_bytes) as int,
        ));
    }
}

/// Copies `rows` rows of `row_bytes` bytes, `stride` bytes apart in `src`,
/// into one packed buffer.
pub fn copy_plane(src: &[u8], rows: usize, row_bytes: usize, stride: usize) -> (out: Vec<u8>)
    requires
        plane_covers(src@.len(), rows as nat, row_bytes as nat, stride as nat),
    ensures
        out@ == packed_rows(src@, rows as nat, row_bytes as nat, stride as nat),
{
    let len: usize = src.len();
    if stride == row_bytes {
        // Rows follow each other: the image is the start of the plane.
        let n: usize = rows * stride;
        let mut out: Vec<u8> = Vec::with_capacity(n);
        let mut i: usize = 0;
        while i < n
            invariant
                n == rows * stride,
                n <= src@.len(),
                i <= n,
                out@ == src@.subrange(0, i as int),
            decreases n - i,
        {
            out.push(src[i]);
            i = i + 1;
            assert(out@ =~= src@.subrange(0, i as int));
        }
        proof {
            lemma_packed_rows_contiguous(src@, rows as nat, row_bytes as nat);
        }
        out
    } else {
        let mut out: Vec<u8> = Vec::new();
        let mut row: usize = 0;
        while row < rows
            invariant
                len == src@.len(),
                plane_covers(src@.len(), rows as nat, row_bytes as nat, stride as nat),
                row <= rows,
                out@ == packed_rows(src@, row as nat, row_bytes as nat, stride as nat),
            decreases rows - row,
        {
            proof {
                lemma_row_end_within(row as nat, rows as nat, row_bytes as nat, stride as nat);
            }
            let start: usize = row * stride;
            let ghost before = out@;
            let mut c: usize = 0;
            while c < row_bytes
                invariant
                    len == src@.len(),
                    start + row_bytes <= src@.len(),
                    c <= row_bytes,
                    out@ == before + src@.subrange(start as int, start + c),
                decreases row_bytes - c,
            {
                out.push(src[start + c]);
                c = c + 1;
                assert(out@ =~= before + src@.subrange(start as int, start + c));
            }
            row = row + 1;
            assert(((row - 1) as nat) * (stride as nat) == start);
        }
        out
    }
}

// ---------------------------------------------------------------------------
// Pixels whose bytes come in another order
// ---------------------------------------------------------------------------

/// Where byte `k` of pixel `p` of row `r` stands in an image of rows of
/// `width` pixels of `bpp` bytes laid out with nothing between them.
pub open spec fn pixel_byte_index(width: nat, bpp: nat, r: int, p: int, k: int) -> int {
    (r * width + p) * bpp + k
}

/// The byte that `o` picks from a source pixel of `src_bpp` bytes starting
/// at `at`: its byte `o`, or 255 (an opaque alpha) when `o` is `src_bpp`.
pub open spec fn pixel_source_byte(src: Seq<u8>, at: int, src_bpp: nat, o: usize) -> u8 {
    if o < src_bpp {
        src[at + o]
    } else {
        255u8
    }
}

/// Byte `i` of the image read from a plane whose rows of `width` pixels of
/// `src_bpp` bytes start `stride` bytes apart, each pixel becoming the
/// `order.len()` bytes that `order` picks from it.
pub open spec fn reordered_byte(
    src: Seq<u8>,
    width: nat,
    stride: nat,
    src_bpp: nat,
    order: Seq<usize>,
    i: int,
) -> u8 {
    let bpp = order.len();
    let row = i / ((width * bpp) as int);
    let c = i % ((width * bpp) as int);
    pixel_source_byte(src, row * stride + (c / (bpp as int)) * src_bpp, src_bpp, order[c % (bpp as int)])
}

/// The `rows` rows of pixels of a plane, laid out with nothing between them,
/// each pixel made of the bytes that `order` picks from it.
pub open spec fn reordered_plane(
    src: Seq<u8>,
    rows: nat,
    width: nat,
    stride: nat,
    src_bpp: nat,
    order: Seq<usize>,
) -> Seq<u8> {
    Seq::new(
        rows * width * order.len(),
        |i: int| reordered_byte(src, width, stride, src_bpp, order, i),
    )
}

/// `order` picks each byte of a pixel from a source pixel of `src_bpp`
/// bytes: one of its bytes, or (when equal to `src_bpp`) an opaque alpha.
pub open spec fn is_byte_order(order: Seq<usize>, src_bpp: nat) -> bool {
    &&& order.len() > 0
    &&& forall|k: int| 0 <= k < order.len() ==> #[trigger] order[k] <= src_bpp
}

proof fn lemma_pixel_index(width: nat, bpp: nat, rows: nat, r: int, p: int, k: int)
    requires
        0 <= r < rows,
        0 <= p < width,
        0 <= k < bpp,
    ensures
        ({
            let i = pixel_byte_index(width, bpp, r, p, k);
            &&& 0 <= i < rows * width * bpp
            &&& i / ((width * bpp) as int) == r
            &&& i % ((width * bpp) as int) == p * bpp + k
            &&& (p * bpp + k) / (bpp as int) == p
            &&& (p * bpp + k) % (bpp as int) == k
            &&& i + 1 == pixel_byte_index(width, bpp, r, p, k + 1)
            &&& pixel_byte_index(width, bpp, r, p, bpp as int) == pixel_byte_index(width, bpp, r, p + 1, 0)
            &&& pixel_byte_index(width, bpp, r, width as int, 0) == pixel_byte_index(width, bpp, r + 1, 0, 0)
        }),
{
    let i = pixel_byte_index(width, bpp, r, p, k);
    assert(i == r * (width * bpp) + (p * bpp + k)) by (nonlinear_arith)
        requires
            i == (r * width + p) * bpp + k,
    ;
    assert(0 <= p * bpp + k < width * bpp) by (nonlinear_arith)
        requires
            0 <= p < width,
            0 <= k < bpp,
    ;
    assert(0 <= r * (width * bpp)) by (nonlinear_arith)
        requires
            0 <= r,
    ;
    assert(r * (width * bpp) + width * bpp <= rows * width * bpp) by (nonlinear_arith)
        requires
            r + 1 <= rows,
    ;
    vstd::arithmetic::div_mod::lemma_fundamental_div_mod_converse(
        i,
        (width * bpp) as int,
        r,
        p * bpp + k,
    );
    vstd::arithmetic::div_mod::lemma_fundamental_div_mod_converse(p * bpp + k, bpp as int, p, k);
    assert((r * width + p) * bpp + bpp == (r * width + p + 1) * bpp) by (nonlinear_arith);
    assert((r * width + width) * bpp == ((r + 1) * width + 0) * bpp) by (nonlinear_arith);
}

/// The byte of the converted image at the place of byte `k` of pixel `p` of
/// row `r` is the byte that `order[k]` picks from that pixel in the plane.
pub proof fn lemma_reordered_pixel(
    src: Seq<u8>,
    rows: nat,
    width: nat,
    stride: nat,
    src_bpp: nat,
    order: Seq<usize>,
    r: int,
    p: int,
    k: int,
)
    requires
        0 <= r < rows,
        0 <= p < width,
        0 <= k < order.len(),
    ensures
        0 <= pixel_byte_index(width, order.len(), r, p, k) < reordered_plane(
            src,
            rows,
            width,
            stride,
            src_bpp,
            order,
        ).len(),
        reordered_plane(src, rows, width, stride, src_bpp, order)[pixel_byte_index(
            width,
            order.len(),
            r,
            p,
            k,
        )] == pixel_source_byte(src, r * stride + p * src_bpp, src_bpp, order[k]),
{
    lemma_pixel_index(width, order.len(), rows, r, p, k);
}

/// The rows of pixels of a plane, packed, each pixel of `src_bpp` bytes
/// becoming the bytes that `order` picks from it.
pub fn reorder_pixels(
    src: &[u8],
    rows: usize,
    width: usize,
    stride: usize,
    src_bpp: usize,
    order: &[usize],
) -> (out: Vec<u8>)
    requires
        is_byte_order(order@, src_bpp as nat),
        width * src_bpp <= usize::MAX,
        plane_covers(src@.len(), rows as nat, (width * src_bpp) as nat, stride as nat),
    ensures
        out@ == reordered_plane(src@, rows as nat, width as nat, stride as nat, src_bpp as nat, order@),
        forall|r: int, p: int, k: int|
            0 <= r < rows && 0 <= p < width && 0 <= k < order@.len() ==> out@[#[trigger] pixel_byte_index(
                width as nat,
                order@.len(),
                r,
                p,
                k,
            )] == pixel_source_byte(src@, r * stride + p * src_bpp, src_bpp as nat, order@[k]),
{
    let bpp = order.len();
    let row_bytes: usize = width * src_bpp;
    let len: usize = src.len();
    let ghost w = width as nat;
    let ghost b = bpp as nat;
    let ghost sb = src_bpp as nat;
    let mut out: Vec<u8> = Vec::new();
    let mut r: usize = 0;
    assert(pixel_byte_index(w, b, 0, 0, 0) == 0) by (nonlinear_arith);
    while r < rows
        invariant
            w == width,
            b == bpp,
            sb == src_bpp,
            len == src@.len(),
            bpp == order@.len(),
            row_bytes == width * src_bpp,
            is_byte_order(order@, sb),
            plane_covers(src@.len(), rows as nat, row_bytes as nat, stride as nat),
            r <= rows,
            out@.len() == pixel_byte_index(w, b, r as int, 0, 0),
            forall|i: int| 0 <= i < out@.len() ==> #[trigger] out@[i] == reordered_byte(src@, w, stride as nat, sb, order@, i),
        decreases rows - r,
    {
        proof {
            lemma_row_end_within(r as nat, rows as nat, row_bytes as nat, stride as nat);
        }
        let base: usize = r * stride;
        let mut p: usize = 0;
        while p < width
            invariant
                w == width,
                b == bpp,
                sb == src_bpp,
                len == src@.len(),
                bpp == order@.len(),
                row_bytes == width * src_bpp,
                is_byte_order(order@, sb),
                base == r * stride,
                base + row_bytes <= len,
                r < rows,
                p <= width,
                out@.len() == pixel_byte_index(w, b, r as int, p as int, 0),
                forall|i: int| 0 <= i < out@.len() ==> #[trigger] out@[i] == reordered_byte(src@, w, stride as nat, sb, order@, i),
            decreases width - p,
        {
            assert(p * src_bpp + src_bpp <= row_bytes) by (nonlinear_arith)
                requires
                    p < width,
                    row_bytes == width * src_bpp,
            ;
            let start: usize = base + p * src_bpp;
            let mut k: usize = 0;
            while k < bpp
                invariant
                    w == width,
                    b == bpp,
                    sb == src_bpp,
                    len == src@.len(),
                    bpp == order@.len(),
                    is_byte_order(order@, sb),
                    base == r * stride,
                    start == base + p * src_bpp,
                    start + src_bpp <= len,
                    r < rows,
                    p < width,
                    k <= bpp,
                    out@.len() == pixel_byte_index(w, b, r as int, p as int, k as int),
                    forall|i: int| 0 <= i < out@.len() ==> #[trigger] out@[i] == reordered_byte(src@, w, stride as nat, sb, order@, i),
                decreases bpp - k,
            {
                proof {
                    lemma_pixel_index(w, b, rows as nat, r as int, p as int, k as int);
                    assert(order@[k as int] <= src_bpp);
                }
                let o = order[k];
                let byte: u8 = if o < src_bpp {
                    src[start + o]
                } else {
                    255
                };
                let ghost before = out@;
                out.push(byte);
                proof {
                    assert forall|i: int| 0 <= i < out@.len() implies #[trigger] out@[i] == reordered_byte(src@, w, stride as nat, sb, order@, i) by {
                        if i < before.len() {
                            assert(out@[i] == before[i]);
                        }
                    }
                }
                k = k + 1;
            }
            proof {
                lemma_pixel_index(w, b, rows as nat, r as int, p as int, 0);
            }
            p = p + 1;
        }
        proof {
            if width > 0 {
                lemma_pixel_index(w, b, rows as nat, r as int, (width - 1) as int, 0);
            } else {
                assert(pixel_byte_index(w, b, r as int, 0, 0) == pixel_byte_index(w, b, r + 1, 0, 0)) by (nonlinear_arith)
                    requires
                        w == 0,
                ;
            }
        }
        r = r + 1;
    }
    proof {
        assert(pixel_byte_index(w, b, rows as int, 0, 0) == rows * w * b) by (nonlinear_arith);
        assert(out@ =~= reordered_plane(src@, rows as nat, w, stride as nat, sb, order@));
        assert forall|r: int, p: int, k: int|
            0 <= r < rows && 0 <= p < width && 0 <= k < order@.len() implies out@[#[trigger] pixel_byte_index(
                w,
                order@.len(),
                r,
                p,
                k,
            )] == pixel_source_byte(src@, r * stride + p * src_bpp, sb, order@[k]) by {
            lemma_reordered_pixel(src@, rows as nat, w, stride as nat, sb, order@, r, p, k);
        }
    }
    out
}

// ---------------------------------------------------------------------------
// Frames
// ---------------------------------------------------------------------------

/// The bytes of one image and its array shape (rows, columns and, for packed
/// pixels, the bytes of a pixel).
pub struct Image {
    pub data: Vec<u8>,
    pub shape: Vec<usize>,
}

/// The planes of a captured frame.
///
/// An NV12 frame has a luma plane and an interleaved chroma plane; the other
/// formats have one packed plane. Each plane holds the bytes from the start of
/// its first row to the end of the memory the camera handed over; its stride
/// is the distance between the starts of two rows.
pub struct FrameData {
    pub width: u32,
    pub height: u32,
    pub format: Format,
    /// Microseconds.
    pub timestamp: u64,
    pub y_plane: Option<Vec<u8>>,
    pub y_stride: usize,
    pub uv_plane: Option<Vec<u8>>,
    pub uv_stride: usize,
    pub packed_plane: Option<Vec<u8>>,
    pub packed_stride: usize,
}

/// The bytes of a pixel in a packed format (zero for the others).
pub open spec fn packed_pixel_bytes(f: Format) -> nat {
    match f {
        Format::YUY2 => 2,
        Format::RGB => 3,
        Format::RGBA => 4,
        _ => 0,
    }
}

/// The bytes held by a plane that may be absent (none when it is).
pub open spec fn plane_bytes(p: Option<Vec<u8>>) -> Seq<u8> {
    match p {
        Some(v) => v@,
        None => Seq::empty(),
    }
}

impl FrameData {
    /// The planes that the conversion of this frame to an image reads hold
    /// the rows that their strides promise.
    pub open spec fn readable(&self) -> bool {
        match self.format {
            Format::NV12 => self.y_plane is Some && self.uv_plane is Some ==> {
                &&& plane_covers(
                    plane_bytes(self.y_plane).len(),
                    self.height as nat,
                    self.width as nat,
                    self.y_stride as nat,
                )
                &&& plane_covers(
                    plane_bytes(self.uv_plane).len(),
                    (self.height / 2) as nat,
                    self.width as nat,
                    self.uv_stride as nat,
                )
            },
            Format::MJPEG => true,
            _ => self.packed_plane is Some ==> {
                &&& self.width * packed_pixel_bytes(self.format) <= usize::MAX
                &&& plane_covers(
                    plane_bytes(self.packed_plane).len(),
                    self.height as nat,
                    (self.width as nat) * packed_pixel_bytes(self.format),
                    self.packed_stride as nat,
                )
            },
        }
    }
}

/// A frame of a packed format (2, 3 or 4 bytes per pixel) is readable exactly
/// when a row of its pixels fits in a `usize`, its plane holds `height` rows at
/// its stride, and a row of pixels fits in the stride. The stride may exceed
/// the row of pixels: the bytes that pad each row are skipped.
pub proof fn law_packed_frame_readable(d: FrameData, bpp: nat)
    requires
        (d.format == Format::YUY2 && bpp == 2) || (d.format == Format::RGB && bpp == 3) || (
        d.format == Format::RGBA && bpp == 4),
        d.packed_plane is Some,
    ensures
        d.readable() <==> {
            &&& (d.width as nat) * bpp <= usize::MAX
            &&& (d.height as nat) * (d.packed_stride as nat) <= d.packed_plane->Some_0@.len()
            &&& (d.height == 0 || (d.width as nat) * bpp <= d.packed_stride)
        },
{
}

/// `rows * stride` when it does not exceed `len`.
pub(crate) fn covers(len: usize, rows: usize, row_bytes: usize, stride: usize) -> (b: bool)
    ensures
        b == plane_covers(len as nat, rows as nat, row_bytes as nat, stride as nat),
{
    match rows.checked_mul(stride) {
        Some(total) => total <= len && (rows == 0 || row_bytes <= stride),
        None => {
            assert(rows * stride > len);
            false
        },
    }
}

/// A captured frame.
pub struct Frame {
    data: FrameData,
}

impl Frame {
    /// What the frame holds.
    pub closed spec fn spec_data(&self) -> FrameData {
        self.data
    }

    pub fn new(data: FrameData) -> (r: Self)
        ensures
            r.spec_data() == data,
    {
        Frame { data }
    }

    /// What the frame holds.
    pub fn data(&self) -> (r: &FrameData)
        ensures
            *r == self.spec_data(),
    {
        &self.data
    }

    pub fn width(&self) -> (r: u32)
        ensures
            r == self.spec_data().width,
    {
        self.data.width
    }

    pub fn height(&self) -> (r: u32)
        ensures
            r == self.spec_data().height,
    {
        self.data.height
    }

    pub fn format(&self) -> (r: Format)
        ensures
            r == self.spec_data().format,
    {
        self.data.format
    }

    /// Microseconds.
    pub fn timestamp(&self) -> (r: u64)
        ensures
            r == self.spec_data().timestamp,
    {
        self.data.timestamp
    }

    /// Whether the planes that an image conversion reads hold the rows that
    /// their strides promise (which the conversions require).
    pub fn is_readable(&self) -> (b: bool)
        ensures
            b == self.spec_data().readable(),
    {
        let d = &self.data;
        match d.format {
            Format::NV12 => match (&d.y_plane, &d.uv_plane) {
                (Some(y), Some(uv)) => covers(
                    y.len(),
                    d.height as usize,
                    d.width as usize,
                    d.y_stride,
                ) && covers(uv.len(), (d.height / 2) as usize, d.width as usize, d.uv_stride),
                _ => true,
            },
            Format::MJPEG => true,
            _ => match &d.packed_plane {
                Some(p) => {
                    let bpp: usize = if d.format == Format::YUY2 {
                        2
                    } else if d.format == Format::RGB {
                        3
                    } else {
                        4
                    };
                    match (d.width as usize).checked_mul(bpp) {
                        Some(row_bytes) => covers(
                            p.len(),
                            d.height as usize,
                            row_bytes,
                            d.packed_stride,
                        ),
                        None => false,
                    }
                },
                None => true,
            },
        }
    }

    /// The luma plane, `height` rows of `width` bytes, and the interleaved
    /// chroma plane, `height / 2` rows of `width` bytes, of an NV12 frame.
    pub fn to_nv12(&self) -> (r: Result<(Image, Image), FrameError>)
        requires
            self.spec_data().format == Format::NV12 ==> self.spec_data().readable(),
        ensures
            ({
                let d = self.spec_data();
                &&& d.format != Format::NV12 ==> r == Err::<(Image, Image), FrameError>(
                    FrameError::WrongFormat(Format::NV12),
                )
                &&& d.format == Format::NV12 && d.y_plane is None ==> r == Err::<
                    (Image, Image),
                    FrameError,
                >(FrameError::MissingYPlane)
                &&& d.format == Format::NV12 && d.y_plane is Some && d.uv_plane is None ==> r
                    == Err::<(Image, Image), FrameError>(FrameError::MissingUvPlane)
                &&& d.format == Format::NV12 && d.y_plane is Some && d.uv_plane is Some ==> {
                    &&& r is Ok
                    &&& r->Ok_0.0.data@ == packed_rows(
                        plane_bytes(d.y_plane),
                        d.height as nat,
                        d.width as nat,
                        d.y_stride as nat,
                    )
                    &&& r->Ok_0.0.shape@ == seq![d.height as usize, d.width as usize]
                    &&& r->Ok_0.1.data@ == packed_rows(
                        plane_bytes(d.uv_plane),
                        (d.height / 2) as nat,
                        d.width as nat,
                        d.uv_stride as nat,
                    )
                    &&& r->Ok_0.1.shape@ == seq![(d.height / 2) as usize, d.width as usize]
                }
            }),
    {
        let d = &self.data;
        if d.format != Format::NV12 {
            return Err(FrameError::WrongFormat(Format::NV12));
        }
        let y = match &d.y_plane {
            Some(y) => y,
            None => return Err(FrameError::MissingYPlane),
        };
        let uv = match &d.uv_plane {
            Some(uv) => uv,
            None => return Err(FrameError::MissingUvPlane),
        };
        let height = d.height as usize;
        let width = d.width as usize;
        let uv_height = height / 2;
        let y_data = copy_plane(y.as_slice(), height, width, d.y_stride);
        let uv_data = copy_plane(uv.as_slice(), uv_height, width, d.uv_stride);
        let y_image = Image { data: y_data, shape: vec![height, width] };
        let uv_image = Image { data: uv_data, shape: vec![uv_height, width] };
        Ok((y_image, uv_image))
    }

    /// The packed plane of a frame of `format`, `height` rows of
    /// `width * bpp` bytes, shaped `(height, width, bpp)`.
    fn to_packed(&self, format: Format, bpp: usize) -> (r: Result<Image, FrameError>)
        requires
            self.spec_data().format == format ==> self.spec_data().readable(),
            format != Format::NV12,
            format != Format::MJPEG,
            bpp == packed_pixel_bytes(format),
        ensures
            packed_image_result(self.spec_data(), format, r),
    {
        let d = &self.data;
        if d.format != format {
            return Err(FrameError::WrongFormat(format));
        }
        let p = match &d.packed_plane {
            Some(p) => p,
            None => return Err(FrameError::MissingPackedPlane),
        };
        let height = d.height as usize;
        let width = d.width as usize;
        let row_bytes = width * bpp;
        let data = copy_plane(p.as_slice(), height, row_bytes, d.packed_stride);
        Ok(Image { data, shape: vec![height, width, bpp] })
    }

    /// The YUY2 pixels of the frame, shaped `(height, width, 2)`.
    pub fn to_yuy2(&self) -> (r: Result<Image, FrameError>)
        requires
            self.spec_data().format == Format::YUY2 ==> self.spec_data().readable(),
        ensures
            packed_image_result(self.spec_data(), Format::YUY2, r),
    {
        self.to_packed(Format::YUY2, 2)
    }

    /// The RGB pixels of the frame, shaped `(height, width, 3)`.
    pub fn to_rgb(&self) -> (r: Result<Image, FrameError>)
        requires
            self.spec_data().format == Format::RGB ==> self.spec_data().readable(),
        ensures
            packed_image_result(self.spec_data(), Format::RGB, r),
    {
        self.to_packed(Format::RGB, 3)
    }

    /// The RGBA pixels of the frame, shaped `(height, width, 4)`.
    pub fn to_rgba(&self) -> (r: Result<Image, FrameError>)
        requires
            self.spec_data().format == Format::RGBA ==> self.spec_data().readable(),
        ensures
            packed_image_result(self.spec_data(), Format::RGBA, r),
    {
        self.to_packed(Format::RGBA, 4)
    }
}

/// What converting a frame holding `d` to an image of the packed `format`
/// gives: the wrong-format error, the missing-plane error, or the rows of the
/// packed plane.
pub open spec fn packed_image_result(d: FrameData, format: Format, r: Result<Image, FrameError>) -> bool {
    let bpp = packed_pixel_bytes(format);
    &&& d.format != format ==> r == Err::<Image, FrameError>(FrameError::WrongFormat(format))
    &&& d.format == format && d.packed_plane is None ==> r == Err::<Image, FrameError>(
        FrameError::MissingPackedPlane,
    )
    &&& d.format == format && d.packed_plane is Some ==> {
        &&& r is Ok
        &&& r->Ok_0.data@ == packed_rows(
            plane_bytes(d.packed_plane),
            d.height as nat,
            (d.width as nat) * bpp,
            d.packed_stride as nat,
        )
        &&& r->Ok_0.shape@ == seq![d.height as usize, d.width as usize, bpp as usize]
    }
}

} // verus!
