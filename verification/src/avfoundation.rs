//! The decisions of the AVFoundation backend: CoreVideo pixel-format codes,
//! the choice of a device format and the planes of a pixel buffer.

use vstd::prelude::*;

use crate::error::UvcError;
use crate::frame::{
    Frame, FrameData, covers, lemma_packed_rows_contiguous, lemma_reordered_pixel, packed_pixel_bytes,
    packed_rows, pixel_byte_index, plane_bytes, plane_covers, reorder_pixels, reordered_plane,
};
use crate::text::{decimal, push_decimal, push_str};
use crate::types::{Format, FormatInfo, format_name};

verus! {

/// `420v`: bi-planar 4:2:0 YCbCr, video range.
pub const CV_420V: u32 = 0x34323076;

/// `420f`: bi-planar 4:2:0 YCbCr, full range.
pub const CV_420F: u32 = 0x34323066;

/// `2vuy`: packed 4:2:2 YCbCr (UYVY).
pub const CV_2VUY: u32 = 0x32767579;

/// `yuvs`: packed 4:2:2 YCbCr (YUY2).
pub const CV_YUVS: u32 = 0x79757673;

/// `BGRA`: 32-bit BGRA.
pub const CV_32BGRA: u32 = 0x42475241;

/// 32-bit ARGB.
pub const CV_32ARGB: u32 = 0x00000020;

/// 24-bit RGB.
pub const CV_24RGB: u32 = 0x00000018;

/// `24BG`: 24-bit BGR.
pub const CV_24BGR: u32 = 0x32344247;

/// The format a device format of this pixel code is listed as: the format
/// whose frames a capture in it delivers (BGRA, ARGB and UYVY buffers are put
/// in the byte order of RGBA and YUY2 when they arrive, see
/// `pixel_buffer_frame`).
pub open spec fn spec_mode_format(code: u32) -> Option<Format> {
    if code == CV_420V || code == CV_420F {
        Some(Format::NV12)
    } else if code == CV_2VUY || code == CV_YUVS {
        Some(Format::YUY2)
    } else if code == CV_32BGRA || code == CV_32ARGB {
        Some(Format::RGBA)
    } else if code == CV_24RGB || code == CV_24BGR {
        Some(Format::RGB)
    } else {
        None
    }
}

/// The format a captured pixel buffer of this pixel code is kept as, once
/// its bytes are in the order the format names; buffers of other codes are
/// dropped.
pub open spec fn spec_frame_format(code: u32) -> Option<Format> {
    if code == CV_420V || code == CV_420F {
        Some(Format::NV12)
    } else if code == CV_2VUY || code == CV_YUVS {
        Some(Format::YUY2)
    } else if code == CV_32BGRA || code == CV_32ARGB {
        Some(Format::RGBA)
    } else {
        None
    }
}

/// The pixel code the capture output is asked to deliver for a format.
pub open spec fn spec_output_pixel_format(f: Format) -> u32 {
    match f {
        Format::NV12 => CV_420F,
        Format::YUY2 => CV_YUVS,
        _ => CV_32BGRA,
    }
}

/// Whether a device format of this pixel code can capture a format (none
/// captures MJPEG).
pub open spec fn spec_code_matches(f: Format, code: u32) -> bool {
    match f {
        Format::NV12 => code == CV_420V || code == CV_420F,
        Format::YUY2 => code == CV_2VUY || code == CV_YUVS,
        Format::RGBA => code == CV_32BGRA || code == CV_32ARGB,
        Format::RGB => code == CV_24RGB || code == CV_24BGR,
        Format::MJPEG => false,
    }
}

pub fn mode_format(code: u32) -> (r: Option<Format>)
    ensures
        r == spec_mode_format(code),
{
    if code == CV_420V || code == CV_420F {
        Some(Format::NV12)
    } else if code == CV_2VUY || code == CV_YUVS {
        Some(Format::YUY2)
    } else if code == CV_32BGRA || code == CV_32ARGB {
        Some(Format::RGBA)
    } else if code == CV_24RGB || code == CV_24BGR {
        Some(Format::RGB)
    } else {
        None
    }
}

pub fn frame_format(code: u32) -> (r: Option<Format>)
    ensures
        r == spec_frame_format(code),
{
    if code == CV_420V || code == CV_420F {
        Some(Format::NV12)
    } else if code == CV_2VUY || code == CV_YUVS {
        Some(Format::YUY2)
    } else if code == CV_32BGRA || code == CV_32ARGB {
        Some(Format::RGBA)
    } else {
        None
    }
}

pub fn output_pixel_format(f: Format) -> (r: u32)
    ensures
        r == spec_output_pixel_format(f),
{
    match f {
        Format::NV12 => CV_420F,
        Format::YUY2 => CV_YUVS,
        _ => CV_32BGRA,
    }
}

pub fn code_matches(f: Format, code: u32) -> (r: bool)
    ensures
        r == spec_code_matches(f, code),
{
    match f {
        Format::NV12 => code == CV_420V || code == CV_420F,
        Format::YUY2 => code == CV_2VUY || code == CV_YUVS,
        Format::RGBA => code == CV_32BGRA || code == CV_32ARGB,
        Format::RGB => code == CV_24RGB || code == CV_24BGR,
        Format::MJPEG => false,
    }
}

/// Whether a device format (its dimensions and pixel code) is a candidate for
/// a capture of `width` by `height` pixels in `format`.
pub fn format_candidate(
    format_width: u32,
    format_height: u32,
    code: u32,
    width: u32,
    height: u32,
    format: Format,
) -> (r: bool)
    ensures
        r == (format_width == width && format_height == height && spec_code_matches(format, code)),
{
    format_width == width && format_height == height && code_matches(format, code)
}

/// The modes a device format offers: one per frame rate, when its pixel code
/// stands for a format.
pub fn device_format_modes(width: u32, height: u32, code: u32, rates: &Vec<u32>) -> (r: Vec<
    FormatInfo,
>)
    ensures
        spec_mode_format(code) is None ==> r@.len() == 0,
        spec_mode_format(code) is Some ==> r@ == rates@.map_values(
            |fps: u32| FormatInfo { width, height, fps, format: spec_mode_format(code)->Some_0 },
        ),
{
    let mut out: Vec<FormatInfo> = Vec::new();
    if let Some(format) = mode_format(code) {
        let mut i: usize = 0;
        while i < rates.len()
            invariant
                i <= rates@.len(),
                out@ == rates@.subrange(0, i as int).map_values(
                    |fps: u32| FormatInfo { width, height, fps, format },
                ),
            decreases rates@.len() - i,
        {
            out.push(FormatInfo::new(width, height, rates[i], format));
            i = i + 1;
            assert(out@ =~= rates@.subrange(0, i as int).map_values(
                |fps: u32| FormatInfo { width, height, fps, format },
            ));
        }
        assert(rates@.subrange(0, rates@.len() as int) =~= rates@);
    }
    out
}

/// How a format is named in the error for a mode no device format offers.
pub open spec fn unsupported_format_name(f: Format) -> Seq<char> {
    if f == Format::MJPEG {
        "MJPEG (not supported)"@
    } else {
        format_name(f)
    }
}

/// The error for a capture mode that no device format offers.
pub fn unsupported_format_error(width: u32, height: u32, fps: u32, format: Format) -> (r: UvcError)
    ensures
        r matches UvcError::FormatError(msg) && msg@ == "サポートされていないフォーマット: "@
            + decimal(width as nat) + "x"@ + decimal(height as nat) + "@"@ + decimal(fps as nat)
            + " "@ + unsupported_format_name(format),
{
    let mut s = String::new();
    push_str(&mut s, "サポートされていないフォーマット: ");
    push_decimal(&mut s, width);
    push_str(&mut s, "x");
    push_decimal(&mut s, height);
    push_str(&mut s, "@");
    push_decimal(&mut s, fps);
    push_str(&mut s, " ");
    if format == Format::MJPEG {
        push_str(&mut s, "MJPEG (not supported)");
    } else {
        push_str(&mut s, format.name());
    }
    UvcError::FormatError(s)
}

/// A step of listing or opening cameras through AVFoundation that failed.
#[derive(Clone, Copy, PartialEq, Eq, Debug, Structural)]
pub enum SessionStep {
    /// The discovery session class is missing.
    DiscoveryClass,
    /// Creating the discovery session.
    DiscoverySession,
    /// Locking the device for configuration.
    LockDevice,
    /// Creating the capture input of the device.
    CreateInput,
}

/// The message for a step that failed.
pub open spec fn session_error_message(step: SessionStep) -> Seq<char> {
    match step {
        SessionStep::DiscoveryClass => "AVCaptureDeviceDiscoverySession クラスが見つかりません"@,
        SessionStep::DiscoverySession => "ディスカバリセッションの作成に失敗しました"@,
        SessionStep::LockDevice => "デバイスのロックに失敗しました"@,
        SessionStep::CreateInput => "入力デバイスの作成に失敗しました"@,
    }
}

/// The error for a step that failed.
pub fn session_error(step: SessionStep) -> (r: UvcError)
    ensures
        r matches UvcError::PlatformError(msg) && msg@ == session_error_message(step),
{
    let mut s = String::new();
    match step {
        SessionStep::DiscoveryClass => push_str(
            &mut s,
            "AVCaptureDeviceDiscoverySession クラスが見つかりません",
        ),
        SessionStep::DiscoverySession => push_str(&mut s, "ディスカバリセッションの作成に失敗しました"),
        SessionStep::LockDevice => push_str(&mut s, "デバイスのロックに失敗しました"),
        SessionStep::CreateInput => push_str(&mut s, "入力デバイスの作成に失敗しました"),
    }
    UvcError::PlatformError(s)
}

/// The error for a unique id that names no device.
pub fn unknown_device_error(unique_id: &str) -> (r: UvcError)
    ensures
        r matches UvcError::PlatformError(msg) && msg@ == "デバイスが見つかりません: "@ + unique_id@,
{
    let mut s = String::new();
    push_str(&mut s, "デバイスが見つかりません: ");
    push_str(&mut s, unique_id);
    UvcError::PlatformError(s)
}

/// The format a captured pixel buffer of this code is kept as when a capture
/// in `requested` asked for it: BGRA and ARGB buffers of an RGB capture as
/// RGB, any other buffer as its code's format.
pub open spec fn spec_kept_format(code: u32, requested: Format) -> Option<Format> {
    if (code == CV_32BGRA || code == CV_32ARGB) && requested == Format::RGB {
        Some(Format::RGB)
    } else {
        spec_frame_format(code)
    }
}

pub fn kept_format(code: u32, requested: Format) -> (r: Option<Format>)
    ensures
        r == spec_kept_format(code, requested),
{
    if (code == CV_32BGRA || code == CV_32ARGB) && requested == Format::RGB {
        Some(Format::RGB)
    } else {
        frame_format(code)
    }
}

/// How a pixel of a packed buffer of this code, in a capture in `requested`,
/// is turned into a pixel in the byte order its kept format names: the size
/// of a pixel in the buffer, and the bytes taken from it. BGRA and ARGB
/// pixels become R, G, B (and A, unless the capture is RGB); the byte pairs
/// of UYVY (`2vuy`) become Y0 U and Y1 V. No bytes for the codes whose pixels
/// are already in that order.
pub open spec fn spec_pixel_layout(code: u32, requested: Format) -> (nat, Seq<usize>) {
    if code == CV_32BGRA {
        if requested == Format::RGB {
            (4, seq![2usize, 1, 0])
        } else {
            (4, seq![2usize, 1, 0, 3])
        }
    } else if code == CV_32ARGB {
        if requested == Format::RGB {
            (4, seq![1usize, 2, 3])
        } else {
            (4, seq![1usize, 2, 3, 0])
        }
    } else if code == CV_2VUY {
        (2, seq![1usize, 0])
    } else {
        (0, Seq::empty())
    }
}

pub fn pixel_layout(code: u32, requested: Format) -> (r: (usize, Vec<usize>))
    ensures
        r.0 == spec_pixel_layout(code, requested).0,
        r.1@ == spec_pixel_layout(code, requested).1,
{
    let rgb = requested == Format::RGB;
    let (n, v) = if code == CV_32BGRA {
        if rgb {
            (4, vec![2usize, 1, 0])
        } else {
            (4, vec![2usize, 1, 0, 3])
        }
    } else if code == CV_32ARGB {
        if rgb {
            (4, vec![1usize, 2, 3])
        } else {
            (4, vec![1usize, 2, 3, 0])
        }
    } else if code == CV_2VUY {
        (2, vec![1usize, 0])
    } else {
        (0, Vec::new())
    };
    assert(v@ =~= spec_pixel_layout(code, requested).1);
    (n, v)
}

/// The planes of a locked pixel buffer.
pub enum BufferPlanes {
    /// A planar buffer: its first plane (luma) and second plane (chroma).
    Planar { y: Vec<u8>, y_stride: usize, uv: Vec<u8>, uv_stride: usize },
    /// A buffer of one packed plane.
    Packed { data: Vec<u8>, stride: usize },
}

/// `d` holds what a pixel buffer of this code and these planes gives in a
/// capture in `requested`, in the format it is kept as: a planar buffer its
/// two planes; a packed buffer whose pixels come in the order the format
/// names its plane as it is; any other packed buffer its rows of pixels,
/// packed, each pixel turned into that order.
pub open spec fn pixel_buffer_data(
    d: FrameData,
    width: u32,
    height: u32,
    code: u32,
    requested: Format,
    timestamp: u64,
    planes: BufferPlanes,
) -> bool {
    &&& d.width == width
    &&& d.height == height
    &&& spec_kept_format(code, requested) == Some(d.format)
    &&& d.timestamp == timestamp
    &&& match planes {
        BufferPlanes::Planar { y, y_stride, uv, uv_stride } => {
            &&& d.y_plane == Some(y)
            &&& d.y_stride == y_stride
            &&& d.uv_plane == Some(uv)
            &&& d.uv_stride == uv_stride
            &&& d.packed_plane is None
            &&& d.packed_stride == 0
        },
        BufferPlanes::Packed { data, stride } => {
            let (src_bpp, order) = spec_pixel_layout(code, requested);
            &&& d.y_plane is None
            &&& d.y_stride == 0
            &&& d.uv_plane is None
            &&& d.uv_stride == 0
            &&& d.packed_plane is Some
            &&& order.len() == 0 ==> d.packed_plane == Some(data) && d.packed_stride == stride
            &&& order.len() > 0 ==> {
                &&& plane_bytes(d.packed_plane) == reordered_plane(
                    data@,
                    height as nat,
                    width as nat,
                    stride as nat,
                    src_bpp,
                    order,
                )
                &&& d.packed_stride == width * order.len()
            }
        },
    }
}

/// Whether a pixel buffer of this code and these planes is kept in a capture
/// in `requested`: its code stands for a format, and the rows of a packed
/// buffer whose pixels are turned into another order fit its plane.
pub open spec fn pixel_buffer_kept(
    width: u32,
    height: u32,
    code: u32,
    requested: Format,
    planes: BufferPlanes,
) -> bool {
    &&& spec_frame_format(code) is Some
    &&& match planes {
        BufferPlanes::Planar { .. } => true,
        BufferPlanes::Packed { data, stride } => {
            let (src_bpp, order) = spec_pixel_layout(code, requested);
            order.len() > 0 ==> {
                &&& (width as nat) * src_bpp <= usize::MAX
                &&& (width as nat) * order.len() <= usize::MAX
                &&& plane_covers(data@.len(), height as nat, (width as nat) * src_bpp, stride as nat)
            }
        },
    }
}

/// The frame made of a pixel buffer of pixel code `code` captured for a
/// capture in `requested`, in the byte order its format names; none for a
/// buffer that is not kept.
pub fn pixel_buffer_frame(
    width: u32,
    height: u32,
    code: u32,
    requested: Format,
    timestamp: u64,
    planes: BufferPlanes,
) -> (r: Option<Frame>)
    ensures
        r is Some <==> pixel_buffer_kept(width, height, code, requested, planes),
        r is Some ==> pixel_buffer_data(
            r->Some_0.spec_data(),
            width,
            height,
            code,
            requested,
            timestamp,
            planes,
        ),
{
    let format = match kept_format(code, requested) {
        Some(f) => f,
        None => return None,
    };
    let data = match planes {
        BufferPlanes::Planar { y, y_stride, uv, uv_stride } => FrameData {
            width,
            height,
            format,
            timestamp,
            y_plane: Some(y),
            y_stride,
            uv_plane: Some(uv),
            uv_stride,
            packed_plane: None,
            packed_stride: 0,
        },
        BufferPlanes::Packed { data, stride } => {
            let (src_bpp, order) = pixel_layout(code, requested);
            if order.len() == 0 {
                FrameData {
                    width,
                    height,
                    format,
                    timestamp,
                    y_plane: None,
                    y_stride: 0,
                    uv_plane: None,
                    uv_stride: 0,
                    packed_plane: Some(data),
                    packed_stride: stride,
                }
            } else {
                let src_row = match (width as usize).checked_mul(src_bpp) {
                    Some(n) => n,
                    None => return None,
                };
                let row_bytes = match (width as usize).checked_mul(order.len()) {
                    Some(n) => n,
                    None => return None,
                };
                if !covers(data.len(), height as usize, src_row, stride) {
                    return None;
                }
                let pixels = reorder_pixels(
                    data.as_slice(),
                    height as usize,
                    width as usize,
                    stride,
                    src_bpp,
                    order.as_slice(),
                );
                FrameData {
                    width,
                    height,
                    format,
                    timestamp,
                    y_plane: None,
                    y_stride: 0,
                    uv_plane: None,
                    uv_stride: 0,
                    packed_plane: Some(pixels),
                    packed_stride: row_bytes,
                }
            }
        },
    };
    Some(Frame::new(data))
}

/// In a capture other than RGB, each BGRA pixel is kept as R, G, B, A: bytes
/// 2, 1, 0 and 3 of the pixel in the buffer.
pub proof fn law_bgra_pixels_become_rgba(
    src: Seq<u8>,
    rows: nat,
    width: nat,
    stride: nat,
    requested: Format,
    r: int,
    p: int,
)
    requires
        requested != Format::RGB,
        0 <= r < rows,
        0 <= p < width,
    ensures
        ({
            let (src_bpp, order) = spec_pixel_layout(CV_32BGRA, requested);
            let out = reordered_plane(src, rows, width, stride, src_bpp, order);
            let at = pixel_byte_index(width, 4, r, p, 0);
            let base = r * stride + p * 4;
            &&& spec_kept_format(CV_32BGRA, requested) == Some(Format::RGBA)
            &&& out[at] == src[base + 2]
            &&& out[at + 1] == src[base + 1]
            &&& out[at + 2] == src[base]
            &&& out[at + 3] == src[base + 3]
        }),
{
    let (src_bpp, order) = spec_pixel_layout(CV_32BGRA, requested);
    assert(order.len() == 4 && src_bpp == 4);
    lemma_reordered_pixel(src, rows, width, stride, src_bpp, order, r, p, 0);
    lemma_reordered_pixel(src, rows, width, stride, src_bpp, order, r, p, 1);
    lemma_reordered_pixel(src, rows, width, stride, src_bpp, order, r, p, 2);
    lemma_reordered_pixel(src, rows, width, stride, src_bpp, order, r, p, 3);
}

/// In a capture other than RGB, each ARGB pixel is kept as R, G, B, A: bytes
/// 1, 2, 3 and 0 of the pixel in the buffer.
pub proof fn law_argb_pixels_become_rgba(
    src: Seq<u8>,
    rows: nat,
    width: nat,
    stride: nat,
    requested: Format,
    r: int,
    p: int,
)
    requires
        requested != Format::RGB,
        0 <= r < rows,
        0 <= p < width,
    ensures
        ({
            let (src_bpp, order) = spec_pixel_layout(CV_32ARGB, requested);
            let out = reordered_plane(src, rows, width, stride, src_bpp, order);
            let at = pixel_byte_index(width, 4, r, p, 0);
            let base = r * stride + p * 4;
            &&& spec_kept_format(CV_32ARGB, requested) == Some(Format::RGBA)
            &&& out[at] == src[base + 1]
            &&& out[at + 1] == src[base + 2]
            &&& out[at + 2] == src[base + 3]
            &&& out[at + 3] == src[base]
        }),
{
    let (src_bpp, order) = spec_pixel_layout(CV_32ARGB, requested);
    assert(order.len() == 4 && src_bpp == 4);
    lemma_reordered_pixel(src, rows, width, stride, src_bpp, order, r, p, 0);
    lemma_reordered_pixel(src, rows, width, stride, src_bpp, order, r, p, 1);
    lemma_reordered_pixel(src, rows, width, stride, src_bpp, order, r, p, 2);
    lemma_reordered_pixel(src, rows, width, stride, src_bpp, order, r, p, 3);
}

/// In an RGB capture, each BGRA pixel is kept as R, G, B: bytes 2, 1 and 0
/// of the pixel in the buffer; its alpha is dropped.
pub proof fn law_bgra_pixels_become_rgb(src: Seq<u8>, rows: nat, width: nat, stride: nat, r: int, p: int)
    requires
        0 <= r < rows,
        0 <= p < width,
    ensures
        ({
            let (src_bpp, order) = spec_pixel_layout(CV_32BGRA, Format::RGB);
            let out = reordered_plane(src, rows, width, stride, src_bpp, order);
            let at = pixel_byte_index(width, 3, r, p, 0);
            let base = r * stride + p * 4;
            &&& spec_kept_format(CV_32BGRA, Format::RGB) == Some(Format::RGB)
            &&& out[at] == src[base + 2]
            &&& out[at + 1] == src[base + 1]
            &&& out[at + 2] == src[base]
        }),
{
    let (src_bpp, order) = spec_pixel_layout(CV_32BGRA, Format::RGB);
    assert(order.len() == 3 && src_bpp == 4);
    lemma_reordered_pixel(src, rows, width, stride, src_bpp, order, r, p, 0);
    lemma_reordered_pixel(src, rows, width, stride, src_bpp, order, r, p, 1);
    lemma_reordered_pixel(src, rows, width, stride, src_bpp, order, r, p, 2);
}

/// In an RGB capture, each ARGB pixel is kept as R, G, B: bytes 1, 2 and 3
/// of the pixel in the buffer; its alpha is dropped.
pub proof fn law_argb_pixels_become_rgb(src: Seq<u8>, rows: nat, width: nat, stride: nat, r: int, p: int)
    requires
        0 <= r < rows,
        0 <= p < width,
    ensures
        ({
            let (src_bpp, order) = spec_pixel_layout(CV_32ARGB, Format::RGB);
            let out = reordered_plane(src, rows, width, stride, src_bpp, order);
            let at = pixel_byte_index(width, 3, r, p, 0);
            let base = r * stride + p * 4;
            &&& spec_kept_format(CV_32ARGB, Format::RGB) == Some(Format::RGB)
            &&& out[at] == src[base + 1]
            &&& out[at + 1] == src[base + 2]
            &&& out[at + 2] == src[base + 3]
        }),
{
    let (src_bpp, order) = spec_pixel_layout(CV_32ARGB, Format::RGB);
    assert(order.len() == 3 && src_bpp == 4);
    lemma_reordered_pixel(src, rows, width, stride, src_bpp, order, r, p, 0);
    lemma_reordered_pixel(src, rows, width, stride, src_bpp, order, r, p, 1);
    lemma_reordered_pixel(src, rows, width, stride, src_bpp, order, r, p, 2);
}

/// Each UYVY byte pair (U Y0 or V Y1) is kept as Y0 U or Y1 V, so a pair of
/// pixels reads Y0 U Y1 V.
pub proof fn law_uyvy_pixels_become_yuy2(
    src: Seq<u8>,
    rows: nat,
    width: nat,
    stride: nat,
    requested: Format,
    r: int,
    p: int,
)
    requires
        0 <= r < rows,
        0 <= p < width,
    ensures
        ({
            let (src_bpp, order) = spec_pixel_layout(CV_2VUY, requested);
            let out = reordered_plane(src, rows, width, stride, src_bpp, order);
            let at = pixel_byte_index(width, 2, r, p, 0);
            let base = r * stride + p * 2;
            &&& spec_kept_format(CV_2VUY, requested) == Some(Format::YUY2)
            &&& out[at] == src[base + 1]
            &&& out[at + 1] == src[base]
        }),
{
    let (src_bpp, order) = spec_pixel_layout(CV_2VUY, requested);
    assert(order.len() == 2 && src_bpp == 2);
    lemma_reordered_pixel(src, rows, width, stride, src_bpp, order, r, p, 0);
    lemma_reordered_pixel(src, rows, width, stride, src_bpp, order, r, p, 1);
}

/// A frame made of a packed buffer whose pixels were turned into another
/// order reads back as those pixels: its conversion to its format gives the
/// converted plane.
pub proof fn law_reordered_frame_reads_back(
    d: FrameData,
    width: u32,
    height: u32,
    code: u32,
    requested: Format,
    timestamp: u64,
    data: Vec<u8>,
    stride: usize,
)
    requires
        spec_pixel_layout(code, requested).1.len() > 0,
        pixel_buffer_kept(width, height, code, requested, BufferPlanes::Packed { data, stride }),
        pixel_buffer_data(d, width, height, code, requested, timestamp, BufferPlanes::Packed { data, stride }),
    ensures
        d.readable(),
        packed_pixel_bytes(d.format) == spec_pixel_layout(code, requested).1.len(),
        packed_rows(
            plane_bytes(d.packed_plane),
            height as nat,
            (width as nat) * packed_pixel_bytes(d.format),
            d.packed_stride as nat,
        ) == reordered_plane(
            data@,
            height as nat,
            width as nat,
            stride as nat,
            spec_pixel_layout(code, requested).0,
            spec_pixel_layout(code, requested).1,
        ),
{
    let (src_bpp, order) = spec_pixel_layout(code, requested);
    let plane = reordered_plane(data@, height as nat, width as nat, stride as nat, src_bpp, order);
    assert((height as nat) * ((width as nat) * order.len()) == (height as nat) * (width as nat) * order.len()) by (nonlinear_arith);
    lemma_packed_rows_contiguous(plane, height as nat, (width as nat) * order.len());
    assert(plane.subrange(0, plane.len() as int) =~= plane);
}

/// Every format a capture asks for arrives in buffers that the capture keeps,
/// as that format; MJPEG, which no device format captures, as RGBA.
pub proof fn law_output_format_arrives(f: Format)
    ensures
        spec_kept_format(spec_output_pixel_format(f), f) == Some(
            if f == Format::MJPEG {
                Format::RGBA
            } else {
                f
            },
        ),
{
}

/// A device format chosen to capture a format is listed as that format.
pub proof fn law_candidate_listed_as_format(f: Format, code: u32)
    requires
        spec_code_matches(f, code),
    ensures
        spec_mode_format(code) == Some(f),
{
}

/// A device format can capture a format exactly when its pixel code is listed
/// as that format, MJPEG excepted: every code listed as NV12 (video or full
/// range), YUY2, RGBA or RGB is a candidate for a capture of that format.
pub proof fn law_code_matches_iff_listed(f: Format, code: u32)
    ensures
        spec_code_matches(f, code) <==> (f != Format::MJPEG && spec_mode_format(code) == Some(f)),
{
}

/// A device format of the requested size whose code is listed as the
/// requested format is a candidate, and one of another size never is.
pub proof fn law_candidate_of_listed_code(
    format_width: u32,
    format_height: u32,
    code: u32,
    width: u32,
    height: u32,
    format: Format,
)
    ensures
        (format_width == width && format_height == height && format != Format::MJPEG
            && spec_mode_format(code) == Some(format)) ==> (format_width == width && format_height
            == height && spec_code_matches(format, code)),
        (format_width != width || format_height != height) ==> !(format_width == width
            && format_height == height && spec_code_matches(format, code)),
{
}

/// The buffers a capture keeps are of formats that devices list, as the same
/// format.
pub proof fn law_frame_format_listed(code: u32)
    requires
        spec_frame_format(code) is Some,
    ensures
        spec_mode_format(code) == spec_frame_format(code),
{
}

} // verus!
