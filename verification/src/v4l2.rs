//! The decisions of the V4L2 backend: pixel-format codes, device nodes,
//! buffers handed back by the driver and the modes a camera offers.

use vstd::prelude::*;

use crate::error::UvcError;
use crate::frame::{
    Frame, FrameData, lemma_packed_rows_contiguous, lemma_reordered_pixel, packed_pixel_bytes,
    packed_rows, pixel_byte_index, plane_bytes, reorder_pixels, reordered_plane,
};
use crate::text::{before_nul, bytes_to_string, c_string_text, decimal, push_decimal, push_str, utf8_lossy};
use crate::types::{DeviceInfo, Format, FormatInfo, format_name};

verus! {

// ---------------------------------------------------------------------------
// Codes of the V4L2 interface
// ---------------------------------------------------------------------------

/// The device can capture video.
pub const V4L2_CAP_VIDEO_CAPTURE: u32 = 0x00000001;

/// The device supports the streaming I/O method.
pub const V4L2_CAP_STREAMING: u32 = 0x04000000;

/// FourCC `YUYV`.
pub const V4L2_PIX_FMT_YUYV: u32 = 0x56595559;

/// FourCC `MJPG`.
pub const V4L2_PIX_FMT_MJPEG: u32 = 0x47504A4D;

/// FourCC `NV12`.
pub const V4L2_PIX_FMT_NV12: u32 = 0x3231564E;

/// FourCC `RGB3`.
pub const V4L2_PIX_FMT_RGB24: u32 = 0x33424752;

/// FourCC `BGR3`.
pub const V4L2_PIX_FMT_BGR24: u32 = 0x33524742;

/// A frame size given as one width and height.
pub const V4L2_FRMSIZE_TYPE_DISCRETE: u32 = 1;

/// A frame interval given as one fraction.
pub const V4L2_FRMIVAL_TYPE_DISCRETE: u32 = 1;

/// The number of buffers requested from the driver.
pub const BUFFER_COUNT: u32 = 4;

/// The number of `/dev/video<N>` nodes that are probed.
pub const VIDEO_NODE_COUNT: u32 = 64;

/// The frame rate listed for a size whose intervals give none.
pub const DEFAULT_FPS: u32 = 30;

// ---------------------------------------------------------------------------
// Pixel formats
// ---------------------------------------------------------------------------

/// The format that a V4L2 pixel format code stands for, if any.
pub open spec fn spec_pixel_format_to_format(code: u32) -> Option<Format> {
    if code == V4L2_PIX_FMT_YUYV {
        Some(Format::YUY2)
    } else if code == V4L2_PIX_FMT_MJPEG {
        Some(Format::MJPEG)
    } else if code == V4L2_PIX_FMT_NV12 {
        Some(Format::NV12)
    } else if code == V4L2_PIX_FMT_RGB24 || code == V4L2_PIX_FMT_BGR24 {
        Some(Format::RGB)
    } else {
        None
    }
}

/// The V4L2 pixel format code requested for a format (RGBA is asked for as
/// 24-bit RGB).
pub open spec fn spec_format_to_pixel_format(f: Format) -> u32 {
    match f {
        Format::YUY2 => V4L2_PIX_FMT_YUYV,
        Format::MJPEG => V4L2_PIX_FMT_MJPEG,
        Format::NV12 => V4L2_PIX_FMT_NV12,
        Format::RGB | Format::RGBA => V4L2_PIX_FMT_RGB24,
    }
}

pub fn pixel_format_to_format(code: u32) -> (r: Option<Format>)
    ensures
        r == spec_pixel_format_to_format(code),
{
    if code == V4L2_PIX_FMT_YUYV {
        Some(Format::YUY2)
    } else if code == V4L2_PIX_FMT_MJPEG {
        Some(Format::MJPEG)
    } else if code == V4L2_PIX_FMT_NV12 {
        Some(Format::NV12)
    } else if code == V4L2_PIX_FMT_RGB24 || code == V4L2_PIX_FMT_BGR24 {
        Some(Format::RGB)
    } else {
        None
    }
}

pub fn format_to_pixel_format(f: Format) -> (r: u32)
    ensures
        r == spec_format_to_pixel_format(f),
{
    match f {
        Format::YUY2 => V4L2_PIX_FMT_YUYV,
        Format::MJPEG => V4L2_PIX_FMT_MJPEG,
        Format::NV12 => V4L2_PIX_FMT_NV12,
        Format::RGB | Format::RGBA => V4L2_PIX_FMT_RGB24,
    }
}

/// The code requested for a format other than RGBA reads back as that format.
pub proof fn law_format_code_round_trip(f: Format)
    requires
        f != Format::RGBA,
    ensures
        spec_pixel_format_to_format(spec_format_to_pixel_format(f)) == Some(f),
{
}

/// A code that stands for a format, other than BGR24, is the code requested
/// for that format.
pub proof fn law_pixel_code_round_trip(code: u32)
    requires
        spec_pixel_format_to_format(code) is Some,
        code != V4L2_PIX_FMT_BGR24,
    ensures
        spec_format_to_pixel_format(spec_pixel_format_to_format(code)->Some_0) == code,
{
}

// ---------------------------------------------------------------------------
// Device nodes
// ---------------------------------------------------------------------------

/// Whether a retry is due: the `ioctl` failed and was interrupted by a signal.
pub fn should_retry_ioctl(result: i32, interrupted: bool) -> (r: bool)
    ensures
        r == (result == -1 && interrupted),
{
    result == -1 && interrupted
}

/// Capabilities that make a node a camera: video capture and streaming I/O.
pub open spec fn spec_is_capture_device(capabilities: u32) -> bool {
    (capabilities & V4L2_CAP_VIDEO_CAPTURE) != 0 && (capabilities & V4L2_CAP_STREAMING) != 0
}

pub fn is_capture_device(capabilities: u32) -> (r: bool)
    ensures
        r == spec_is_capture_device(capabilities),
{
    (capabilities & V4L2_CAP_VIDEO_CAPTURE) != 0 && (capabilities & V4L2_CAP_STREAMING) != 0
}

/// The path of the video node numbered `n`, `/dev/video<n>`.
pub open spec fn device_node_path(n: nat) -> Seq<char> {
    "/dev/video"@ + decimal(n)
}

pub fn video_node_path(n: u32) -> (r: String)
    ensures
        r@ == device_node_path(n as nat),
{
    let mut s = String::new();
    push_str(&mut s, "/dev/video");
    push_decimal(&mut s, n);
    s
}

/// What querying one video node gave.
pub struct NodeProbe {
    /// The capabilities the node reported, if it could be opened and queried.
    pub capabilities: Option<u32>,
    /// The card name of a second query of a capture node, if it answered.
    pub card: Option<Vec<u8>>,
}

/// A node is listed when it reported capture capabilities and its card name.
pub open spec fn probe_listed(p: NodeProbe) -> bool {
    &&& p.capabilities is Some
    &&& spec_is_capture_device(p.capabilities->Some_0)
    &&& p.card is Some
}

/// The devices (name, unique id, index) listed from the nodes probed in
/// order: each listed node gives a device named after its card, identified by
/// its path and indexed by the number of devices before it.
pub open spec fn listed_devices(probes: Seq<NodeProbe>) -> Seq<(Seq<char>, Seq<char>, nat)>
    decreases probes.len(),
{
    if probes.len() == 0 {
        Seq::empty()
    } else {
        let prev = listed_devices(probes.drop_last());
        let last = probes.last();
        if probe_listed(last) {
            prev.push(
                (
                    c_string_text(last.card->Some_0@),
                    device_node_path((probes.len() - 1) as nat),
                    prev.len(),
                ),
            )
        } else {
            prev
        }
    }
}

proof fn lemma_listed_devices_len(probes: Seq<NodeProbe>)
    ensures
        listed_devices(probes).len() <= probes.len(),
    decreases probes.len(),
{
    if probes.len() > 0 {
        lemma_listed_devices_len(probes.drop_last());
    }
}

/// The devices of the nodes probed, `probes[n]` being `/dev/video<n>`.
pub fn list_devices_from_probes(probes: &Vec<NodeProbe>) -> (r: Vec<DeviceInfo>)
    requires
        probes@.len() <= VIDEO_NODE_COUNT,
    ensures
        r@.len() == listed_devices(probes@).len(),
        forall|k: int|
            0 <= k < r@.len() ==> {
                let e = #[trigger] listed_devices(probes@)[k];
                &&& r@[k].name@ == e.0
                &&& r@[k].unique_id@ == e.1
                &&& r@[k].index == e.2
            },
{
    let mut devices: Vec<DeviceInfo> = Vec::new();
    let mut n: usize = 0;
    while n < probes.len()
        invariant
            n <= probes@.len() <= VIDEO_NODE_COUNT,
            devices@.len() == listed_devices(probes@.subrange(0, n as int)).len(),
            forall|k: int|
                0 <= k < devices@.len() ==> {
                    let e = #[trigger] listed_devices(probes@.subrange(0, n as int))[k];
                    &&& devices@[k].name@ == e.0
                    &&& devices@[k].unique_id@ == e.1
                    &&& devices@[k].index == e.2
                },
        decreases probes@.len() - n,
    {
        let ghost before = probes@.subrange(0, n as int);
        let ghost after = probes@.subrange(0, n + 1);
        proof {
            assert(after.drop_last() =~= before);
            assert(after.last() == probes@[n as int]);
            lemma_listed_devices_len(before);
        }
        let probe = &probes[n];
        if let Some(capabilities) = probe.capabilities {
            if is_capture_device(capabilities) {
                if let Some(card) = &probe.card {
                    let name = bytes_to_string(card.as_slice());
                    let path = video_node_path(n as u32);
                    let index = devices.len() as u32;
                    devices.push(DeviceInfo::new(name, path, index));
                }
            }
        }
        n = n + 1;
    }
    assert(probes@.subrange(0, probes@.len() as int) =~= probes@);
    devices
}

/// A device listed from the probes carries its position in the list as its
/// index, so opening the device at an index gives the one with that index.
pub proof fn law_listed_index_is_position(probes: Seq<NodeProbe>, k: int)
    requires
        0 <= k < listed_devices(probes).len(),
    ensures
        listed_devices(probes)[k].2 == k,
    decreases probes.len(),
{
    if probes.len() > 0 {
        let prev = listed_devices(probes.drop_last());
        if k < prev.len() {
            law_listed_index_is_position(probes.drop_last(), k);
        }
    }
}

/// The devices listed from the first `m` probes are the first devices listed
/// from all of them.
proof fn lemma_listed_prefix(probes: Seq<NodeProbe>, m: int)
    requires
        0 <= m <= probes.len(),
    ensures
        listed_devices(probes.subrange(0, m)).len() <= listed_devices(probes).len(),
        forall|k: int|
            0 <= k < listed_devices(probes.subrange(0, m)).len() ==> #[trigger] listed_devices(
                probes.subrange(0, m),
            )[k] == listed_devices(probes)[k],
    decreases probes.len(),
{
    if m == probes.len() {
        assert(probes.subrange(0, m) =~= probes);
    } else {
        let rest = probes.drop_last();
        assert(rest.subrange(0, m) =~= probes.subrange(0, m));
        lemma_listed_prefix(rest, m);
    }
}

/// Every node that answered as a capture device with a card name is listed,
/// after the devices of the nodes before it: its name is the lossy UTF-8 text
/// of all the bytes of its card before the first NUL (the whole card when it
/// holds none), its id the path of its node, and its index its position.
pub proof fn law_listed_node_device(probes: Seq<NodeProbe>, n: int)
    requires
        0 <= n < probes.len(),
        probes[n].capabilities is Some,
        spec_is_capture_device(probes[n].capabilities->Some_0),
        probes[n].card is Some,
    ensures
        ({
            let k = listed_devices(probes.subrange(0, n)).len();
            let card = probes[n].card->Some_0@;
            &&& k < listed_devices(probes).len()
            &&& listed_devices(probes)[k as int].0 == utf8_lossy(before_nul(card))
            &&& listed_devices(probes)[k as int].1 == "/dev/video"@ + decimal(n as nat)
            &&& listed_devices(probes)[k as int].2 == k
        }),
{
    let before = probes.subrange(0, n);
    let upto = probes.subrange(0, n + 1);
    assert(upto.drop_last() =~= before);
    lemma_listed_prefix(probes, n + 1);
    let k = listed_devices(before).len();
    assert(listed_devices(upto)[k as int] == listed_devices(probes)[k as int]);
}

/// Every listed device comes from a node that answered as a capture device
/// with a card name, and carries that node's card text and path.
pub proof fn law_listed_device_node(probes: Seq<NodeProbe>, k: int)
    requires
        0 <= k < listed_devices(probes).len(),
    ensures
        exists|n: int|
            0 <= n < probes.len() && probe_listed(#[trigger] probes[n]) && listed_devices(probes)[k].0
                == utf8_lossy(before_nul(probes[n].card->Some_0@)) && listed_devices(probes)[k].1
                == "/dev/video"@ + decimal(n as nat),
    decreases probes.len(),
{
    let rest = probes.drop_last();
    if k < listed_devices(rest).len() {
        law_listed_device_node(rest, k);
        let n = choose|n: int|
            0 <= n < rest.len() && probe_listed(#[trigger] rest[n]) && listed_devices(rest)[k].0
                == utf8_lossy(before_nul(rest[n].card->Some_0@)) && listed_devices(rest)[k].1
                == "/dev/video"@ + decimal(n as nat);
        assert(probes[n] == rest[n]);
    } else {
        let n = probes.len() - 1;
        assert(probe_listed(probes[n]));
    }
}

// ---------------------------------------------------------------------------
// Errors of the capture set-up
// ---------------------------------------------------------------------------

/// The error for a format the driver refused, naming the requested mode.
pub fn set_format_error(width: u32, height: u32, format: Format) -> (r: UvcError)
    ensures
        r matches UvcError::FormatError(msg) && msg@ == "フォーマット設定に失敗しました: "@
            + decimal(width as nat) + "x"@ + decimal(height as nat) + " "@ + format_name(format),
{
    let mut s = String::new();
    push_str(&mut s, "フォーマット設定に失敗しました: ");
    push_decimal(&mut s, width);
    push_str(&mut s, "x");
    push_decimal(&mut s, height);
    push_str(&mut s, " ");
    push_str(&mut s, format.name());
    UvcError::FormatError(s)
}

/// The step of the buffer set-up that failed for one buffer.
#[derive(Clone, Copy, PartialEq, Eq, Debug, Structural)]
pub enum BufferStep {
    /// Querying the buffer's offset and length.
    Query,
    /// Mapping the buffer into memory.
    MemoryMap,
    /// Handing the buffer to the driver.
    Queue,
}

/// The message for a buffer step that failed for buffer `index`.
pub open spec fn buffer_error_message(step: BufferStep, index: u32) -> Seq<char> {
    match step {
        BufferStep::Query => "バッファ "@ + decimal(index as nat) + " のクエリに失敗しました"@,
        BufferStep::MemoryMap => "バッファ "@ + decimal(index as nat) + " の mmap に失敗しました"@,
        BufferStep::Queue => "バッファ "@ + decimal(index as nat) + " のキューイングに失敗しました"@,
    }
}

/// The error for a buffer step that failed for buffer `index`.
pub fn buffer_error(step: BufferStep, index: u32) -> (r: UvcError)
    ensures
        r matches UvcError::PlatformError(msg) && msg@ == buffer_error_message(step, index),
{
    let mut s = String::new();
    push_str(&mut s, "バッファ ");
    push_decimal(&mut s, index);
    match step {
        BufferStep::Query => push_str(&mut s, " のクエリに失敗しました"),
        BufferStep::MemoryMap => push_str(&mut s, " の mmap に失敗しました"),
        BufferStep::Queue => push_str(&mut s, " のキューイングに失敗しました"),
    }
    UvcError::PlatformError(s)
}

/// A step of starting a capture that failed before any buffer was set up,
/// or while asking for buffers or starting the stream.
#[derive(Clone, Copy, PartialEq, Eq, Debug, Structural)]
pub enum SetupStep {
    /// The device path cannot be handed to the system.
    InvalidPath,
    /// Opening the device node.
    Open,
    /// Asking the driver for buffers.
    RequestBuffers,
    /// Starting the stream.
    StreamOn,
}

/// The message for a step of starting a capture that failed.
pub open spec fn setup_error_message(step: SetupStep) -> Seq<char> {
    match step {
        SetupStep::InvalidPath => "無効なデバイスパス"@,
        SetupStep::Open => "デバイスのオープンに失敗しました"@,
        SetupStep::RequestBuffers => "バッファの要求に失敗しました"@,
        SetupStep::StreamOn => "ストリームの開始に失敗しました"@,
    }
}

/// The error for a step of starting a capture that failed.
pub fn setup_error(step: SetupStep) -> (r: UvcError)
    ensures
        r matches UvcError::PlatformError(msg) && msg@ == setup_error_message(step),
{
    let mut s = String::new();
    match step {
        SetupStep::InvalidPath => push_str(&mut s, "無効なデバイスパス"),
        SetupStep::Open => push_str(&mut s, "デバイスのオープンに失敗しました"),
        SetupStep::RequestBuffers => push_str(&mut s, "バッファの要求に失敗しました"),
        SetupStep::StreamOn => push_str(&mut s, "ストリームの開始に失敗しました"),
    }
    UvcError::PlatformError(s)
}

/// The time per frame (numerator, denominator, in seconds) asked of the
/// driver for a frame rate: `1 / fps`; none for a rate of 0, for which no
/// time per frame is asked.
pub fn frame_interval(fps: u32) -> (r: Option<(u32, u32)>)
    ensures
        fps == 0 ==> r is None,
        fps > 0 ==> r == Some((1u32, fps)),
{
    if fps == 0 {
        None
    } else {
        Some((1, fps))
    }
}

// ---------------------------------------------------------------------------
// Captured buffers
// ---------------------------------------------------------------------------

/// Whether `poll` reported the device readable (a positive count).
pub fn frame_ready(poll_result: i32) -> (r: bool)
    ensures
        r == (poll_result > 0),
{
    poll_result > 0
}

/// Whether the driver handed back one of the `count` mapped buffers.
pub fn buffer_index_valid(index: u32, count: usize) -> (r: bool)
    ensures
        r == (index < count),
{
    (index as usize) < count
}

/// The capture time of a buffer in microseconds.
pub fn timestamp_micros(seconds: u64, microseconds: u64) -> (r: u64)
    requires
        seconds * 1_000_000 + microseconds <= u64::MAX,
    ensures
        r == seconds * 1_000_000 + microseconds,
{
    seconds * 1_000_000 + microseconds
}

/// The arithmetic of laying out a buffer of `format` stays within `u32`.
pub open spec fn buffer_layout_fits(width: u32, height: u32, format: Format) -> bool {
    match format {
        Format::NV12 => width * height <= u32::MAX,
        Format::MJPEG => true,
        _ => width * packed_pixel_bytes(format) <= u32::MAX,
    }
}

/// How an RGB24 pixel becomes an RGBA pixel: its three bytes, then an opaque
/// alpha (the source pixel's size, 3, picks 255).
pub open spec fn rgb24_to_rgba() -> Seq<usize> {
    seq![0usize, 1, 2, 3]
}

/// `d` is the frame made of a captured buffer `data`: an NV12 buffer is the
/// luma plane from its start with a stride of `width`, followed, when the
/// buffer is longer than `width * height` bytes, by the chroma plane with the
/// same stride; any other buffer is one packed plane whose stride is the row
/// of pixels (the whole buffer for MJPEG). An RGBA capture asks the driver
/// for RGB24, so its buffer, when it holds `height` rows of RGB24 pixels, is
/// turned into RGBA pixels with an opaque alpha.
pub open spec fn frame_from_buffer(
    d: FrameData,
    data: Seq<u8>,
    width: u32,
    height: u32,
    format: Format,
    timestamp: u64,
) -> bool {
    &&& d.width == width
    &&& d.height == height
    &&& d.format == format
    &&& d.timestamp == timestamp
    &&& format == Format::NV12 ==> {
        let y_size = width * height;
        &&& d.y_plane is Some
        &&& plane_bytes(d.y_plane) == data
        &&& d.y_stride == width
        &&& data.len() > y_size ==> {
            &&& d.uv_plane is Some
            &&& plane_bytes(d.uv_plane) == data.subrange(y_size, data.len() as int)
            &&& d.uv_stride == width
        }
        &&& data.len() <= y_size ==> d.uv_plane is None && d.uv_stride == 0
        &&& d.packed_plane is None
        &&& d.packed_stride == 0
    }
    &&& format == Format::RGBA ==> {
        &&& data.len() >= (height as nat) * ((width as nat) * 3) ==> plane_bytes(d.packed_plane)
            == reordered_plane(data, height as nat, width as nat, (width as nat) * 3, 3, rgb24_to_rgba())
        &&& data.len() < (height as nat) * ((width as nat) * 3) ==> plane_bytes(d.packed_plane) == data
    }
    &&& format != Format::NV12 && format != Format::RGBA ==> plane_bytes(d.packed_plane) == data
    &&& format != Format::NV12 ==> {
        &&& d.packed_plane is Some
        &&& d.packed_stride == (if format == Format::MJPEG {
            data.len()
        } else {
            (width as nat) * packed_pixel_bytes(format)
        })
        &&& d.y_plane is None
        &&& d.y_stride == 0
        &&& d.uv_plane is None
        &&& d.uv_stride == 0
    }
}

/// The frame made of a buffer that the driver filled.
pub fn create_frame(data: Vec<u8>, width: u32, height: u32, format: Format, timestamp: u64) -> (r:
    Frame)
    requires
        buffer_layout_fits(width, height, format),
    ensures
        frame_from_buffer(r.spec_data(), data@, width, height, format, timestamp),
{
    let mut frame_data = FrameData {
        width,
        height,
        format,
        timestamp,
        y_plane: None,
        y_stride: 0,
        uv_plane: None,
        uv_stride: 0,
        packed_plane: None,
        packed_stride: 0,
    };
    match format {
        Format::NV12 => {
            let y_size = (width * height) as usize;
            let len = data.len();
            if len > y_size {
                let uv = vstd::slice::slice_to_vec(&data.as_slice()[y_size..len]);
                frame_data.uv_plane = Some(uv);
                frame_data.uv_stride = width as usize;
            }
            frame_data.y_plane = Some(data);
            frame_data.y_stride = width as usize;
        },
        Format::RGBA => {
            let rgb_row: usize = (width as usize) * 3;
            let rows = height as usize;
            let len: usize = data.len();
            let expanded = match rows.checked_mul(rgb_row) {
                Some(n) => n <= len,
                None => false,
            };
            proof {
                assert((height as nat) * ((width as nat) * 3) == (rows as nat) * (rgb_row as nat));
            }
            if expanded {
                let order = vec![0usize, 1, 2, 3];
                assert(order@ =~= rgb24_to_rgba());
                let pixels = reorder_pixels(data.as_slice(), rows, width as usize, rgb_row, 3, order.as_slice());
                assert(pixels@ == reordered_plane(data@, height as nat, width as nat, (width as nat) * 3, 3, rgb24_to_rgba()));
                frame_data.packed_plane = Some(pixels);
            } else {
                assert(data@.len() < (height as nat) * ((width as nat) * 3));
                frame_data.packed_plane = Some(data);
            }
            frame_data.packed_stride = (width * 4) as usize;
        },
        _ => {
            let stride: usize = match format {
                Format::YUY2 => (width * 2) as usize,
                Format::RGB => (width * 3) as usize,
                _ => data.len(),
            };
            frame_data.packed_plane = Some(data);
            frame_data.packed_stride = stride;
        },
    }
    Frame::new(frame_data)
}

/// An NV12 buffer that holds both planes reads back as its two planes: the
/// luma plane is its first `width * height` bytes and the chroma plane the
/// `(height / 2) * width` bytes after them.
pub proof fn law_nv12_buffer_planes(d: FrameData, data: Seq<u8>, width: u32, height: u32, timestamp: u64)
    requires
        frame_from_buffer(d, data, width, height, Format::NV12, timestamp),
        data.len() > width * height,
        data.len() >= width * height + (height / 2) * width,
    ensures
        d.readable(),
        packed_rows(plane_bytes(d.y_plane), height as nat, width as nat, d.y_stride as nat)
            == data.subrange(0, width * height),
        packed_rows(plane_bytes(d.uv_plane), (height / 2) as nat, width as nat, d.uv_stride as nat)
            == data.subrange(width * height, width * height + (height / 2) * width),
{
    let y_size = width * height;
    let uv = data.subrange(y_size, data.len() as int);
    assert((height as nat) * (width as nat) == (width as nat) * (height as nat)) by (nonlinear_arith);
    lemma_packed_rows_contiguous(data, height as nat, width as nat);
    lemma_packed_rows_contiguous(uv, (height / 2) as nat, width as nat);
    assert(uv.subrange(0, (height / 2) * width) =~= data.subrange(
        y_size,
        y_size + (height / 2) * width,
    ));
}

/// A packed buffer that holds `height` rows of pixels reads back as its first
/// `height * width * bytes-per-pixel` bytes.
pub proof fn law_packed_buffer_pixels(
    d: FrameData,
    data: Seq<u8>,
    width: u32,
    height: u32,
    format: Format,
    timestamp: u64,
)
    requires
        format == Format::YUY2 || format == Format::RGB,
        frame_from_buffer(d, data, width, height, format, timestamp),
        buffer_layout_fits(width, height, format),
        height * (width * packed_pixel_bytes(format)) <= data.len(),
    ensures
        d.readable(),
        packed_rows(
            plane_bytes(d.packed_plane),
            height as nat,
            (width as nat) * packed_pixel_bytes(format),
            d.packed_stride as nat,
        ) == data.subrange(0, height * (width * packed_pixel_bytes(format))),
{
    lemma_packed_rows_contiguous(data, height as nat, (width as nat) * packed_pixel_bytes(format));
}

/// An RGBA capture's buffer that holds `height` rows of RGB24 pixels reads
/// back as RGBA pixels: the R, G and B of each pixel, then an alpha of 255.
pub proof fn law_rgba_buffer_pixels(
    d: FrameData,
    data: Seq<u8>,
    width: u32,
    height: u32,
    timestamp: u64,
    r: int,
    p: int,
)
    requires
        frame_from_buffer(d, data, width, height, Format::RGBA, timestamp),
        buffer_layout_fits(width, height, Format::RGBA),
        (height as nat) * ((width as nat) * 3) <= data.len(),
        0 <= r < height,
        0 <= p < width,
    ensures
        d.readable(),
        ({
            let image = packed_rows(plane_bytes(d.packed_plane), height as nat, (width as nat) * 4, d.packed_stride as nat);
            let at = pixel_byte_index(width as nat, 4, r, p, 0);
            let base = r * ((width as nat) * 3) + p * 3;
            &&& image[at] == data[base]
            &&& image[at + 1] == data[base + 1]
            &&& image[at + 2] == data[base + 2]
            &&& image[at + 3] == 255
        }),
{
    let w = width as nat;
    let plane = reordered_plane(data, height as nat, w, w * 3, 3, rgb24_to_rgba());
    assert((height as nat) * (w * 4) == (height as nat) * w * 4) by (nonlinear_arith);
    lemma_packed_rows_contiguous(plane, height as nat, w * 4);
    assert(plane.subrange(0, plane.len() as int) =~= plane);
    lemma_reordered_pixel(data, height as nat, w, w * 3, 3, rgb24_to_rgba(), r, p, 0);
    lemma_reordered_pixel(data, height as nat, w, w * 3, 3, rgb24_to_rgba(), r, p, 1);
    lemma_reordered_pixel(data, height as nat, w, w * 3, 3, rgb24_to_rgba(), r, p, 2);
    lemma_reordered_pixel(data, height as nat, w, w * 3, 3, rgb24_to_rgba(), r, p, 3);
}

// ---------------------------------------------------------------------------
// Capture modes
// ---------------------------------------------------------------------------

/// One frame interval that the driver enumerated for a frame size.
pub struct IntervalRecord {
    pub interval_type: u32,
    pub numerator: u32,
    pub denominator: u32,
}

/// One frame size that the driver enumerated for a pixel format, with the
/// intervals enumerated for it (none for a size that is not discrete).
pub struct SizeRecord {
    pub size_type: u32,
    pub width: u32,
    pub height: u32,
    pub intervals: Vec<IntervalRecord>,
}

/// One pixel format that the driver enumerated, with its frame sizes.
pub struct PixelFormatRecord {
    pub pixel_format: u32,
    pub sizes: Vec<SizeRecord>,
}

/// The frame rates of a list of intervals: `denominator / numerator` for each
/// discrete interval with a non-zero numerator, in order.
pub open spec fn interval_rates(intervals: Seq<IntervalRecord>) -> Seq<u32>
    decreases intervals.len(),
{
    if intervals.len() == 0 {
        Seq::empty()
    } else {
        let prev = interval_rates(intervals.drop_last());
        let i = intervals.last();
        if i.interval_type == V4L2_FRMIVAL_TYPE_DISCRETE && i.numerator > 0 {
            prev.push(i.denominator / i.numerator)
        } else {
            prev
        }
    }
}

/// The frame rates listed for a size: those of its intervals, or the default
/// rate alone when they give none.
pub open spec fn size_rates(intervals: Seq<IntervalRecord>) -> Seq<u32> {
    if interval_rates(intervals).len() == 0 {
        seq![DEFAULT_FPS]
    } else {
        interval_rates(intervals)
    }
}

/// One mode per frame rate of a size.
pub open spec fn rate_modes(width: u32, height: u32, rates: Seq<u32>, format: Format) -> Seq<FormatInfo> {
    rates.map_values(|fps: u32| FormatInfo { width, height, fps, format })
}

/// The modes of the discrete sizes of a pixel format, in order.
pub open spec fn size_modes(sizes: Seq<SizeRecord>, format: Format) -> Seq<FormatInfo>
    decreases sizes.len(),
{
    if sizes.len() == 0 {
        Seq::empty()
    } else {
        let prev = size_modes(sizes.drop_last(), format);
        let z = sizes.last();
        if z.size_type == V4L2_FRMSIZE_TYPE_DISCRETE {
            prev + rate_modes(z.width, z.height, size_rates(z.intervals@), format)
        } else {
            prev
        }
    }
}

/// The modes of all the records of pixel format `code`, in order.
pub open spec fn code_modes(records: Seq<PixelFormatRecord>, code: u32, format: Format) -> Seq<
    FormatInfo,
>
    decreases records.len(),
{
    if records.len() == 0 {
        Seq::empty()
    } else {
        let prev = code_modes(records.drop_last(), code, format);
        let r = records.last();
        if r.pixel_format == code {
            prev + size_modes(r.sizes@, format)
        } else {
            prev
        }
    }
}

/// The pixel formats of the records, each once, in the order they first
/// appear.
///
/// The modes are grouped by pixel format as keys of a map would group them.
/// The groups are kept in a list in the order their codes first appear
/// rather than in a `HashMap`: the order in which a `HashMap` is walked is
/// left open, so a result built by walking one could not be stated, while
/// first-appearance order is one of the orders such a walk gives.
pub open spec fn distinct_codes(records: Seq<PixelFormatRecord>) -> Seq<u32>
    decreases records.len(),
{
    if records.len() == 0 {
        Seq::empty()
    } else {
        let prev = distinct_codes(records.drop_last());
        let code = records.last().pixel_format;
        if prev.contains(code) {
            prev
        } else {
            prev.push(code)
        }
    }
}

/// The modes of the pixel formats `codes` that stand for a format, the codes
/// taken in order and the modes of one code kept together.
pub open spec fn modes_of_codes(records: Seq<PixelFormatRecord>, codes: Seq<u32>) -> Seq<FormatInfo>
    decreases codes.len(),
{
    if codes.len() == 0 {
        Seq::empty()
    } else {
        let prev = modes_of_codes(records, codes.drop_last());
        match spec_pixel_format_to_format(codes.last()) {
            Some(f) => prev + code_modes(records, codes.last(), f),
            None => prev,
        }
    }
}

/// The capture modes of a camera from what its driver enumerated: for each
/// pixel format that stands for a format, every discrete size at each of its
/// frame rates (the default rate when it lists none), the sizes of one pixel
/// format together.
pub open spec fn supported_modes(records: Seq<PixelFormatRecord>) -> Seq<FormatInfo> {
    modes_of_codes(records, distinct_codes(records))
}

/// The frame rates listed for one frame size.
pub fn frame_rates(intervals: &Vec<IntervalRecord>) -> (r: Vec<u32>)
    ensures
        r@ == size_rates(intervals@),
{
    let mut rates: Vec<u32> = Vec::new();
    let mut i: usize = 0;
    while i < intervals.len()
        invariant
            i <= intervals@.len(),
            rates@ == interval_rates(intervals@.subrange(0, i as int)),
        decreases intervals@.len() - i,
    {
        let ghost prefix = intervals@.subrange(0, i + 1);
        assert(prefix.drop_last() =~= intervals@.subrange(0, i as int));
        let iv = &intervals[i];
        if iv.interval_type == V4L2_FRMIVAL_TYPE_DISCRETE && iv.numerator > 0 {
            rates.push(iv.denominator / iv.numerator);
        }
        i = i + 1;
    }
    assert(intervals@.subrange(0, intervals@.len() as int) =~= intervals@);
    if rates.len() == 0 {
        rates.push(DEFAULT_FPS);
        assert(rates@ =~= seq![DEFAULT_FPS]);
    }
    rates
}

/// The intervals that give a frame rate: the discrete ones with a non-zero
/// numerator, in order.
pub open spec fn rate_giving_intervals(intervals: Seq<IntervalRecord>) -> Seq<IntervalRecord> {
    intervals.filter(
        |iv: IntervalRecord| iv.interval_type == V4L2_FRMIVAL_TYPE_DISCRETE && iv.numerator > 0,
    )
}

proof fn lemma_interval_rates_filter(intervals: Seq<IntervalRecord>)
    ensures
        interval_rates(intervals).len() == rate_giving_intervals(intervals).len(),
        forall|i: int|
            0 <= i < interval_rates(intervals).len() ==> #[trigger] interval_rates(intervals)[i]
                == rate_giving_intervals(intervals)[i].denominator / rate_giving_intervals(
                intervals,
            )[i].numerator,
    decreases intervals.len(),
{
    reveal_with_fuel(Seq::filter, 1);
    if intervals.len() > 0 {
        lemma_interval_rates_filter(intervals.drop_last());
    }
}

/// The frame rates listed for a frame size: one per discrete interval with a
/// non-zero numerator, `denominator / numerator`, in the order of the
/// intervals; the default rate alone when there is no such interval.
pub proof fn law_frame_rates_follow_intervals(intervals: Seq<IntervalRecord>)
    ensures
        rate_giving_intervals(intervals).len() == 0 ==> size_rates(intervals) == seq![DEFAULT_FPS],
        rate_giving_intervals(intervals).len() > 0 ==> size_rates(intervals).len()
            == rate_giving_intervals(intervals).len(),
        rate_giving_intervals(intervals).len() > 0 ==> forall|i: int|
            0 <= i < rate_giving_intervals(intervals).len() ==> #[trigger] size_rates(intervals)[i]
                == rate_giving_intervals(intervals)[i].denominator / rate_giving_intervals(
                intervals,
            )[i].numerator,
        forall|i: int|
            0 <= i < rate_giving_intervals(intervals).len() ==> {
                let iv = #[trigger] rate_giving_intervals(intervals)[i];
                iv.interval_type == V4L2_FRMIVAL_TYPE_DISCRETE && iv.numerator > 0
            },
        forall|j: int|
            0 <= j < intervals.len() && (#[trigger] intervals[j]).interval_type
                == V4L2_FRMIVAL_TYPE_DISCRETE && intervals[j].numerator > 0
                ==> rate_giving_intervals(intervals).contains(intervals[j]),
{
    broadcast use vstd::seq_lib::group_filter_ensures;

    lemma_interval_rates_filter(intervals);
}

/// Appends the modes of the discrete sizes of a pixel format to `out`.
fn push_size_modes(out: &mut Vec<FormatInfo>, sizes: &Vec<SizeRecord>, format: Format)
    ensures
        final(out)@ == old(out)@ + size_modes(sizes@, format),
{
    let ghost start = out@;
    let mut k: usize = 0;
    while k < sizes.len()
        invariant
            k <= sizes@.len(),
            out@ == start + size_modes(sizes@.subrange(0, k as int), format),
        decreases sizes@.len() - k,
    {
        let ghost prefix = sizes@.subrange(0, k + 1);
        assert(prefix.drop_last() =~= sizes@.subrange(0, k as int));
        let z = &sizes[k];
        if z.size_type == V4L2_FRMSIZE_TYPE_DISCRETE {
            let rates = frame_rates(&z.intervals);
            let ghost before = out@;
            let mut j: usize = 0;
            while j < rates.len()
                invariant
                    j <= rates@.len(),
                    out@ == before + rate_modes(
                        z.width,
                        z.height,
                        rates@.subrange(0, j as int),
                        format,
                    ),
                decreases rates@.len() - j,
            {
                out.push(FormatInfo::new(z.width, z.height, rates[j], format));
                j = j + 1;
                assert(out@ =~= before + rate_modes(
                    z.width,
                    z.height,
                    rates@.subrange(0, j as int),
                    format,
                ));
            }
            assert(rates@.subrange(0, rates@.len() as int) =~= rates@);
            assert(out@ =~= start + size_modes(prefix, format));
        }
        k = k + 1;
    }
    assert(sizes@.subrange(0, sizes@.len() as int) =~= sizes@);
}

/// The pixel formats of the records, each once, in the order they first
/// appear.
fn record_codes(records: &Vec<PixelFormatRecord>) -> (r: Vec<u32>)
    ensures
        r@ == distinct_codes(records@),
{
    let mut codes: Vec<u32> = Vec::new();
    let mut i: usize = 0;
    while i < records.len()
        invariant
            i <= records@.len(),
            codes@ == distinct_codes(records@.subrange(0, i as int)),
        decreases records@.len() - i,
    {
        let ghost prefix = records@.subrange(0, i + 1);
        assert(prefix.drop_last() =~= records@.subrange(0, i as int));
        let code = records[i].pixel_format;
        let mut seen = false;
        let mut j: usize = 0;
        while j < codes.len()
            invariant
                j <= codes@.len(),
                seen == codes@.subrange(0, j as int).contains(code),
            decreases codes@.len() - j,
        {
            if codes[j] == code {
                seen = true;
            }
            proof {
                let before = codes@.subrange(0, j as int);
                let after = codes@.subrange(0, j + 1);
                assert(after =~= before.push(codes@[j as int]));
                if codes@[j as int] == code {
                    assert(after[j as int] == code);
                }
                if before.contains(code) {
                    let w = choose|w: int| 0 <= w < before.len() && before[w] == code;
                    assert(after[w] == code);
                }
                if after.contains(code) && !before.contains(code) {
                    let w = choose|w: int| 0 <= w < after.len() && after[w] == code;
                    if w < j {
                        assert(before[w] == code);
                    }
                }
            }
            j = j + 1;
        }
        assert(codes@.subrange(0, codes@.len() as int) =~= codes@);
        if !seen {
            codes.push(code);
        }
        i = i + 1;
    }
    assert(records@.subrange(0, records@.len() as int) =~= records@);
    codes
}

/// The capture modes of a camera from the pixel formats, frame sizes and
/// frame intervals its driver enumerated.
pub fn supported_formats(records: &Vec<PixelFormatRecord>) -> (r: Vec<FormatInfo>)
    ensures
        r@ == supported_modes(records@),
{
    let codes = record_codes(records);
    let mut out: Vec<FormatInfo> = Vec::new();
    let mut c: usize = 0;
    while c < codes.len()
        invariant
            c <= codes@.len(),
            codes@ == distinct_codes(records@),
            out@ == modes_of_codes(records@, codes@.subrange(0, c as int)),
        decreases codes@.len() - c,
    {
        let ghost prefix = codes@.subrange(0, c + 1);
        assert(prefix.drop_last() =~= codes@.subrange(0, c as int));
        let code = codes[c];
        if let Some(format) = pixel_format_to_format(code) {
            let ghost before = out@;
            let mut i: usize = 0;
            while i < records.len()
                invariant
                    i <= records@.len(),
                    out@ == before + code_modes(records@.subrange(0, i as int), code, format),
                decreases records@.len() - i,
            {
                let ghost rprefix = records@.subrange(0, i + 1);
                assert(rprefix.drop_last() =~= records@.subrange(0, i as int));
                if records[i].pixel_format == code {
                    push_size_modes(&mut out, &records[i].sizes, format);
                    assert(out@ =~= before + code_modes(rprefix, code, format));
                }
                i = i + 1;
            }
            assert(records@.subrange(0, records@.len() as int) =~= records@);
        }
        c = c + 1;
    }
    assert(codes@.subrange(0, codes@.len() as int) =~= codes@);
    out
}

/// Like the keys of a map, the pixel formats whose modes are listed occur
/// once each, and they are those of the records.
pub proof fn law_distinct_codes(records: Seq<PixelFormatRecord>)
    ensures
        distinct_codes(records).no_duplicates(),
        forall|code: u32|
            distinct_codes(records).contains(code) <==> exists|i: int|
                0 <= i < records.len() && #[trigger] records[i].pixel_format == code,
    decreases records.len(),
{
    if records.len() > 0 {
        let init = records.drop_last();
        law_distinct_codes(init);
        let prev = distinct_codes(init);
        let code = records.last().pixel_format;
        assert forall|c: u32|
            distinct_codes(records).contains(c) <==> exists|i: int|
                0 <= i < records.len() && #[trigger] records[i].pixel_format == c by {
            if distinct_codes(records).contains(c) {
                if prev.contains(c) {
                    let i = choose|i: int| 0 <= i < init.len() && #[trigger] init[i].pixel_format == c;
                    assert(records[i].pixel_format == c);
                } else {
                    assert(distinct_codes(records) == prev.push(code));
                    let w = choose|w: int| 0 <= w < prev.push(code).len() && prev.push(code)[w] == c;
                    assert(c == code);
                    assert(records[records.len() - 1].pixel_format == c);
                }
            }
            if exists|i: int| 0 <= i < records.len() && #[trigger] records[i].pixel_format == c {
                let i = choose|i: int| 0 <= i < records.len() && #[trigger] records[i].pixel_format == c;
                if i < init.len() {
                    assert(init[i].pixel_format == c);
                    assert(prev.contains(c));
                    if !prev.contains(code) {
                        let w = choose|w: int| 0 <= w < prev.len() && prev[w] == c;
                        assert(prev.push(code)[w] == c);
                    }
                } else {
                    assert(c == code);
                    if !prev.contains(code) {
                        assert(prev.push(code)[prev.len() as int] == c);
                    }
                }
            }
        }
    }
}


/// What `s + t` holds: what `s` holds, and what `t` holds.
proof fn lemma_concat_contains(s: Seq<FormatInfo>, t: Seq<FormatInfo>, m: FormatInfo)
    ensures
        (s + t).contains(m) <==> (s.contains(m) || t.contains(m)),
{
    if (s + t).contains(m) {
        let w = choose|w: int| 0 <= w < (s + t).len() && (s + t)[w] == m;
        if w >= s.len() {
            assert(t[w - s.len()] == m);
        }
    }
    if s.contains(m) {
        let w = choose|w: int| 0 <= w < s.len() && s[w] == m;
        assert((s + t)[w] == m);
    }
    if t.contains(m) {
        let w = choose|w: int| 0 <= w < t.len() && t[w] == m;
        assert((s + t)[s.len() + w] == m);
    }
}

/// The modes of one frame size are its size at each of its rates.
proof fn lemma_rate_modes_contains(width: u32, height: u32, rates: Seq<u32>, format: Format, m: FormatInfo)
    ensures
        rate_modes(width, height, rates, format).contains(m) <==> (m.width == width && m.height
            == height && m.format == format && rates.contains(m.fps)),
{
    let modes = rate_modes(width, height, rates, format);
    if modes.contains(m) {
        let w = choose|w: int| 0 <= w < modes.len() && modes[w] == m;
        assert(rates[w] == m.fps);
    }
    if m.width == width && m.height == height && m.format == format && rates.contains(m.fps) {
        let w = choose|w: int| 0 <= w < rates.len() && rates[w] == m.fps;
        assert(modes[w] == m);
    }
}

/// The modes of the sizes of a pixel format are those of its discrete sizes.
proof fn lemma_size_modes_contains(sizes: Seq<SizeRecord>, format: Format, m: FormatInfo)
    ensures
        size_modes(sizes, format).contains(m) <==> exists|k: int|
            0 <= k < sizes.len() && (#[trigger] sizes[k]).size_type == V4L2_FRMSIZE_TYPE_DISCRETE
                && rate_modes(sizes[k].width, sizes[k].height, size_rates(sizes[k].intervals@), format).contains(m),
    decreases sizes.len(),
{
    if sizes.len() > 0 {
        let rest = sizes.drop_last();
        let z = sizes.last();
        lemma_size_modes_contains(rest, format, m);
        let prev = size_modes(rest, format);
        let here = rate_modes(z.width, z.height, size_rates(z.intervals@), format);
        lemma_concat_contains(prev, here, m);
        if prev.contains(m) {
            let k = choose|k: int|
                0 <= k < rest.len() && (#[trigger] rest[k]).size_type == V4L2_FRMSIZE_TYPE_DISCRETE
                    && rate_modes(rest[k].width, rest[k].height, size_rates(rest[k].intervals@), format).contains(m);
            assert(sizes[k] == rest[k]);
        }
        if z.size_type == V4L2_FRMSIZE_TYPE_DISCRETE && here.contains(m) {
            assert(sizes[sizes.len() - 1] == z);
        }
        if exists|k: int|
            0 <= k < sizes.len() && (#[trigger] sizes[k]).size_type == V4L2_FRMSIZE_TYPE_DISCRETE
                && rate_modes(sizes[k].width, sizes[k].height, size_rates(sizes[k].intervals@), format).contains(m)
        {
            let k = choose|k: int|
                0 <= k < sizes.len() && (#[trigger] sizes[k]).size_type == V4L2_FRMSIZE_TYPE_DISCRETE
                    && rate_modes(sizes[k].width, sizes[k].height, size_rates(sizes[k].intervals@), format).contains(m);
            if k < rest.len() {
                assert(rest[k] == sizes[k]);
            }
        }
    }
}

/// The modes of pixel format `code` are those of the sizes of its records.
proof fn lemma_code_modes_contains(records: Seq<PixelFormatRecord>, code: u32, format: Format, m: FormatInfo)
    ensures
        code_modes(records, code, format).contains(m) <==> exists|i: int|
            0 <= i < records.len() && (#[trigger] records[i]).pixel_format == code
                && size_modes(records[i].sizes@, format).contains(m),
    decreases records.len(),
{
    if records.len() > 0 {
        let rest = records.drop_last();
        let r = records.last();
        lemma_code_modes_contains(rest, code, format, m);
        let prev = code_modes(rest, code, format);
        lemma_concat_contains(prev, size_modes(r.sizes@, format), m);
        if prev.contains(m) {
            let i = choose|i: int|
                0 <= i < rest.len() && (#[trigger] rest[i]).pixel_format == code
                    && size_modes(rest[i].sizes@, format).contains(m);
            assert(records[i] == rest[i]);
        }
        if r.pixel_format == code && size_modes(r.sizes@, format).contains(m) {
            assert(records[records.len() - 1] == r);
        }
        if exists|i: int|
            0 <= i < records.len() && (#[trigger] records[i]).pixel_format == code
                && size_modes(records[i].sizes@, format).contains(m)
        {
            let i = choose|i: int|
                0 <= i < records.len() && (#[trigger] records[i]).pixel_format == code
                    && size_modes(records[i].sizes@, format).contains(m);
            if i < rest.len() {
                assert(rest[i] == records[i]);
            }
        }
    }
}

/// The modes of a list of codes are those of its codes that stand for a
/// format.
proof fn lemma_modes_of_codes_contains(records: Seq<PixelFormatRecord>, codes: Seq<u32>, m: FormatInfo)
    ensures
        modes_of_codes(records, codes).contains(m) <==> exists|t: int|
            0 <= t < codes.len() && spec_pixel_format_to_format(#[trigger] codes[t]) is Some
                && code_modes(records, codes[t], spec_pixel_format_to_format(codes[t])->Some_0).contains(m),
    decreases codes.len(),
{
    if codes.len() > 0 {
        let rest = codes.drop_last();
        let c = codes.last();
        lemma_modes_of_codes_contains(records, rest, m);
        let prev = modes_of_codes(records, rest);
        if let Some(f) = spec_pixel_format_to_format(c) {
            lemma_concat_contains(prev, code_modes(records, c, f), m);
        }
        if prev.contains(m) {
            let t = choose|t: int|
                0 <= t < rest.len() && spec_pixel_format_to_format(#[trigger] rest[t]) is Some
                    && code_modes(records, rest[t], spec_pixel_format_to_format(rest[t])->Some_0).contains(m);
            assert(codes[t] == rest[t]);
        }
        if spec_pixel_format_to_format(c) is Some && code_modes(records, c, spec_pixel_format_to_format(c)->Some_0).contains(m) {
            assert(codes[codes.len() - 1] == c);
        }
        if exists|t: int|
            0 <= t < codes.len() && spec_pixel_format_to_format(#[trigger] codes[t]) is Some
                && code_modes(records, codes[t], spec_pixel_format_to_format(codes[t])->Some_0).contains(m)
        {
            let t = choose|t: int|
                0 <= t < codes.len() && spec_pixel_format_to_format(#[trigger] codes[t]) is Some
                    && code_modes(records, codes[t], spec_pixel_format_to_format(codes[t])->Some_0).contains(m);
            if t < rest.len() {
                assert(rest[t] == codes[t]);
            }
        }
    }
}

/// A camera supports exactly the modes of its discrete frame sizes: a mode is
/// listed if and only if some enumerated pixel format that stands for the
/// mode's format has a discrete frame size of the mode's width and height
/// whose frame rates include the mode's rate.
pub proof fn law_supported_modes_are_discrete_sizes(records: Seq<PixelFormatRecord>, m: FormatInfo)
    ensures
        supported_modes(records).contains(m) <==> exists|i: int, k: int|
            0 <= i < records.len() && 0 <= k < records[i].sizes@.len() && spec_pixel_format_to_format(
                records[i].pixel_format,
            ) == Some(m.format) && (#[trigger] records[i].sizes@[k]).size_type
                == V4L2_FRMSIZE_TYPE_DISCRETE && records[i].sizes@[k].width == m.width
                && records[i].sizes@[k].height == m.height && size_rates(
                records[i].sizes@[k].intervals@,
            ).contains(m.fps),
{
    let codes = distinct_codes(records);
    law_distinct_codes(records);
    lemma_modes_of_codes_contains(records, codes, m);
    if supported_modes(records).contains(m) {
        let t = choose|t: int|
            0 <= t < codes.len() && spec_pixel_format_to_format(#[trigger] codes[t]) is Some
                && code_modes(records, codes[t], spec_pixel_format_to_format(codes[t])->Some_0).contains(m);
        let c = codes[t];
        let f = spec_pixel_format_to_format(c)->Some_0;
        lemma_code_modes_contains(records, c, f, m);
        let i = choose|i: int|
            0 <= i < records.len() && (#[trigger] records[i]).pixel_format == c
                && size_modes(records[i].sizes@, f).contains(m);
        lemma_size_modes_contains(records[i].sizes@, f, m);
        let k = choose|k: int|
            0 <= k < records[i].sizes@.len() && (#[trigger] records[i].sizes@[k]).size_type
                == V4L2_FRMSIZE_TYPE_DISCRETE && rate_modes(
                records[i].sizes@[k].width,
                records[i].sizes@[k].height,
                size_rates(records[i].sizes@[k].intervals@),
                f,
            ).contains(m);
        let z = records[i].sizes@[k];
        lemma_rate_modes_contains(z.width, z.height, size_rates(z.intervals@), f, m);
    }
    if exists|i: int, k: int|
        0 <= i < records.len() && 0 <= k < records[i].sizes@.len() && spec_pixel_format_to_format(
            records[i].pixel_format,
        ) == Some(m.format) && (#[trigger] records[i].sizes@[k]).size_type
            == V4L2_FRMSIZE_TYPE_DISCRETE && records[i].sizes@[k].width == m.width
            && records[i].sizes@[k].height == m.height && size_rates(
            records[i].sizes@[k].intervals@,
        ).contains(m.fps)
    {
        let (i, k) = choose|i: int, k: int|
            0 <= i < records.len() && 0 <= k < records[i].sizes@.len() && spec_pixel_format_to_format(
                records[i].pixel_format,
            ) == Some(m.format) && (#[trigger] records[i].sizes@[k]).size_type
                == V4L2_FRMSIZE_TYPE_DISCRETE && records[i].sizes@[k].width == m.width
                && records[i].sizes@[k].height == m.height && size_rates(
                records[i].sizes@[k].intervals@,
            ).contains(m.fps);
        let r = records[i];
        let z = r.sizes@[k];
        let f = m.format;
        lemma_rate_modes_contains(z.width, z.height, size_rates(z.intervals@), f, m);
        lemma_size_modes_contains(r.sizes@, f, m);
        assert(r.sizes@[k] == z);
        lemma_code_modes_contains(records, r.pixel_format, f, m);
        assert(records[i] == r);
        assert(codes.contains(r.pixel_format));
        let t = choose|t: int| 0 <= t < codes.len() && codes[t] == r.pixel_format;
        assert(spec_pixel_format_to_format(codes[t]) is Some);
    }
}

/// The number of modes the discrete sizes of a pixel format offer: the sum of
/// the numbers of their frame rates.
pub open spec fn discrete_rate_count(sizes: Seq<SizeRecord>) -> nat
    decreases sizes.len(),
{
    if sizes.len() == 0 {
        0
    } else {
        discrete_rate_count(sizes.drop_last()) + if sizes.last().size_type
            == V4L2_FRMSIZE_TYPE_DISCRETE {
            size_rates(sizes.last().intervals@).len()
        } else {
            0
        }
    }
}

/// The number of modes the records offer: the sum, over the records whose
/// pixel format stands for a format, of the modes of their discrete sizes.
pub open spec fn record_mode_count(records: Seq<PixelFormatRecord>) -> nat
    decreases records.len(),
{
    if records.len() == 0 {
        0
    } else {
        record_mode_count(records.drop_last()) + if spec_pixel_format_to_format(
            records.last().pixel_format,
        ) is Some {
            discrete_rate_count(records.last().sizes@)
        } else {
            0
        }
    }
}

/// The number of modes the records of pixel format `code` offer.
spec fn code_mode_count(records: Seq<PixelFormatRecord>, code: u32) -> nat
    decreases records.len(),
{
    if records.len() == 0 {
        0
    } else {
        code_mode_count(records.drop_last(), code) + if records.last().pixel_format == code {
            discrete_rate_count(records.last().sizes@)
        } else {
            0
        }
    }
}

/// The number of modes the records of the codes that stand for a format offer.
spec fn codes_mode_count(records: Seq<PixelFormatRecord>, codes: Seq<u32>) -> nat
    decreases codes.len(),
{
    if codes.len() == 0 {
        0
    } else {
        codes_mode_count(records, codes.drop_last()) + if spec_pixel_format_to_format(
            codes.last(),
        ) is Some {
            code_mode_count(records, codes.last())
        } else {
            0
        }
    }
}

proof fn lemma_size_modes_len(sizes: Seq<SizeRecord>, format: Format)
    ensures
        size_modes(sizes, format).len() == discrete_rate_count(sizes),
    decreases sizes.len(),
{
    if sizes.len() > 0 {
        lemma_size_modes_len(sizes.drop_last(), format);
    }
}

proof fn lemma_code_modes_len(records: Seq<PixelFormatRecord>, code: u32, format: Format)
    ensures
        code_modes(records, code, format).len() == code_mode_count(records, code),
    decreases records.len(),
{
    if records.len() > 0 {
        lemma_code_modes_len(records.drop_last(), code, format);
        lemma_size_modes_len(records.last().sizes@, format);
    }
}

proof fn lemma_modes_of_codes_len(records: Seq<PixelFormatRecord>, codes: Seq<u32>)
    ensures
        modes_of_codes(records, codes).len() == codes_mode_count(records, codes),
    decreases codes.len(),
{
    if codes.len() > 0 {
        lemma_modes_of_codes_len(records, codes.drop_last());
        if let Some(f) = spec_pixel_format_to_format(codes.last()) {
            lemma_code_modes_len(records, codes.last(), f);
        }
    }
}

proof fn lemma_code_mode_count_absent(records: Seq<PixelFormatRecord>, code: u32)
    requires
        forall|i: int| 0 <= i < records.len() ==> (#[trigger] records[i]).pixel_format != code,
    ensures
        code_mode_count(records, code) == 0,
    decreases records.len(),
{
    if records.len() > 0 {
        let rest = records.drop_last();
        assert forall|i: int| 0 <= i < rest.len() implies (#[trigger] rest[i]).pixel_format != code by {
            assert(rest[i] == records[i]);
        }
        lemma_code_mode_count_absent(rest, code);
        assert(records[records.len() - 1] == records.last());
    }
}

/// Adding a record to the records adds its modes to the count of the codes
/// once, when its code is among them and stands for a format.
proof fn lemma_codes_mode_count_step(records: Seq<PixelFormatRecord>, codes: Seq<u32>)
    requires
        records.len() > 0,
        codes.no_duplicates(),
    ensures
        codes_mode_count(records, codes) == codes_mode_count(records.drop_last(), codes) + if codes.contains(records.last().pixel_format)
            && spec_pixel_format_to_format(records.last().pixel_format) is Some {
            discrete_rate_count(records.last().sizes@)
        } else {
            0
        },
    decreases codes.len(),
{
    if codes.len() > 0 {
        let cs = codes.drop_last();
        let y = codes.last();
        let c = records.last().pixel_format;
        assert(cs.no_duplicates()) by {
            assert forall|a: int, b: int| 0 <= a < cs.len() && 0 <= b < cs.len() && a != b implies cs[a] != cs[b] by {
                assert(cs[a] == codes[a] && cs[b] == codes[b]);
            }
        }
        lemma_codes_mode_count_step(records, cs);
        assert(codes.contains(c) <==> (cs.contains(c) || y == c)) by {
            if codes.contains(c) {
                let w = choose|w: int| 0 <= w < codes.len() && codes[w] == c;
                if w < cs.len() {
                    assert(cs[w] == c);
                }
            }
            if cs.contains(c) {
                let w = choose|w: int| 0 <= w < cs.len() && cs[w] == c;
                assert(codes[w] == c);
            }
            if y == c {
                assert(codes[codes.len() - 1] == c);
            }
        }
        if y == c {
            assert(!cs.contains(c)) by {
                if cs.contains(c) {
                    let w = choose|w: int| 0 <= w < cs.len() && cs[w] == c;
                    assert(codes[w] == codes[codes.len() - 1]);
                }
            }
        }
    }
}

proof fn lemma_distinct_codes_count(records: Seq<PixelFormatRecord>)
    ensures
        codes_mode_count(records, distinct_codes(records)) == record_mode_count(records),
    decreases records.len(),
{
    if records.len() > 0 {
        let rest = records.drop_last();
        let c = records.last().pixel_format;
        let prev = distinct_codes(rest);
        let d = distinct_codes(records);
        lemma_distinct_codes_count(rest);
        law_distinct_codes(records);
        law_distinct_codes(rest);
        lemma_codes_mode_count_step(records, d);
        assert(records[records.len() - 1].pixel_format == c);
        assert(d.contains(c));
        if !prev.contains(c) {
            assert forall|i: int| 0 <= i < rest.len() implies (#[trigger] rest[i]).pixel_format != c by {
                if rest[i].pixel_format == c {
                    assert(prev.contains(c));
                }
            }
            lemma_code_mode_count_absent(rest, c);
            assert(d == prev.push(c));
            assert(d.drop_last() =~= prev);
        }
    }
}

/// A camera lists one mode per frame rate of each discrete frame size of each
/// enumerated pixel format that stands for a format: nothing is merged,
/// dropped or added.
pub proof fn law_supported_modes_count(records: Seq<PixelFormatRecord>)
    ensures
        supported_modes(records).len() == record_mode_count(records),
{
    lemma_modes_of_codes_len(records, distinct_codes(records));
    lemma_distinct_codes_count(records);
}

} // verus!
