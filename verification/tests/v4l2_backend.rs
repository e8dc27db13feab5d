use uvc::capture::select_device;
use uvc::error::{unsupported_platform_error, FrameError, UvcError};
use uvc::frame::copy_plane;
use uvc::types::{DeviceInfo, Format, FormatInfo};
use uvc::v4l2::{
    buffer_error, buffer_index_valid, create_frame, format_to_pixel_format, frame_rates,
    frame_ready, is_capture_device, list_devices_from_probes, pixel_format_to_format,
    set_format_error, setup_error, should_retry_ioctl, supported_formats, timestamp_micros,
    video_node_path, frame_interval, BufferStep, IntervalRecord, NodeProbe, PixelFormatRecord, SetupStep, SizeRecord,
    V4L2_CAP_STREAMING, V4L2_CAP_VIDEO_CAPTURE, V4L2_FRMIVAL_TYPE_DISCRETE,
    V4L2_FRMSIZE_TYPE_DISCRETE, V4L2_PIX_FMT_BGR24, V4L2_PIX_FMT_MJPEG, V4L2_PIX_FMT_NV12,
    V4L2_PIX_FMT_RGB24, V4L2_PIX_FMT_YUYV,
};

#[test]
fn pixel_codes_to_formats() {
    assert_eq!(pixel_format_to_format(V4L2_PIX_FMT_YUYV), Some(Format::YUY2));
    assert_eq!(pixel_format_to_format(V4L2_PIX_FMT_MJPEG), Some(Format::MJPEG));
    assert_eq!(pixel_format_to_format(V4L2_PIX_FMT_NV12), Some(Format::NV12));
    assert_eq!(pixel_format_to_format(V4L2_PIX_FMT_RGB24), Some(Format::RGB));
    assert_eq!(pixel_format_to_format(V4L2_PIX_FMT_BGR24), Some(Format::RGB));
    assert_eq!(pixel_format_to_format(0x34363248), None);
    assert_eq!(V4L2_PIX_FMT_YUYV, u32::from_le_bytes(*b"YUYV"));
    assert_eq!(V4L2_PIX_FMT_NV12, u32::from_le_bytes(*b"NV12"));
}

#[test]
fn formats_to_pixel_codes_round_trip() {
    for f in [Format::YUY2, Format::MJPEG, Format::NV12, Format::RGB] {
        assert_eq!(pixel_format_to_format(format_to_pixel_format(f)), Some(f));
    }
    assert_eq!(format_to_pixel_format(Format::RGBA), V4L2_PIX_FMT_RGB24);
    assert_eq!(pixel_format_to_format(format_to_pixel_format(Format::RGBA)), Some(Format::RGB));
    assert_eq!(format_to_pixel_format(pixel_format_to_format(V4L2_PIX_FMT_BGR24).unwrap()), V4L2_PIX_FMT_RGB24);
}

#[test]
fn capture_capabilities() {
    assert!(is_capture_device(V4L2_CAP_VIDEO_CAPTURE | V4L2_CAP_STREAMING));
    assert!(is_capture_device(0x84A00001 | V4L2_CAP_STREAMING));
    assert!(!is_capture_device(V4L2_CAP_VIDEO_CAPTURE));
    assert!(!is_capture_device(V4L2_CAP_STREAMING));
    assert!(!is_capture_device(0));
}

#[test]
fn ioctl_retry_decision() {
    assert!(should_retry_ioctl(-1, true));
    assert!(!should_retry_ioctl(-1, false));
    assert!(!should_retry_ioctl(0, true));
}

#[test]
fn node_paths() {
    assert_eq!(video_node_path(0), "/dev/video0");
    assert_eq!(video_node_path(12), "/dev/video12");
    assert_eq!(video_node_path(63), "/dev/video63");
}

fn card(name: &str) -> Vec<u8> {
    let mut v = name.as_bytes().to_vec();
    v.resize(32, 0);
    v
}

#[test]
fn devices_listed_from_probes() {
    let caps = V4L2_CAP_VIDEO_CAPTURE | V4L2_CAP_STREAMING;
    let probes = vec![
        NodeProbe { capabilities: Some(caps), card: Some(card("Front Camera")) },
        NodeProbe { capabilities: Some(V4L2_CAP_STREAMING), card: Some(card("Metadata")) },
        NodeProbe { capabilities: None, card: None },
        NodeProbe { capabilities: Some(caps), card: None },
        NodeProbe { capabilities: Some(caps), card: Some(card("USB Camera")) },
    ];
    let devices = list_devices_from_probes(&probes);
    assert_eq!(devices.len(), 2);
    assert_eq!(devices[0].name, "Front Camera");
    assert_eq!(devices[0].unique_id, "/dev/video0");
    assert_eq!(devices[0].index, 0);
    assert_eq!(devices[1].name, "USB Camera");
    assert_eq!(devices[1].unique_id, "/dev/video4");
    assert_eq!(devices[1].index, 1);
    assert_eq!(list_devices_from_probes(&Vec::new()).len(), 0);
}

#[test]
fn selecting_a_device() {
    let devices = vec![
        DeviceInfo::new("A".to_string(), "/dev/video0".to_string(), 0),
        DeviceInfo::new("B".to_string(), "/dev/video2".to_string(), 1),
    ];
    let b = select_device(devices.clone(), 1).unwrap();
    assert_eq!(b.name, "B");
    assert_eq!(b.index, 1);
    match select_device(devices.clone(), 2) {
        Err(UvcError::DeviceNotFound(i)) => assert_eq!(i, 2),
        _ => panic!("expected DeviceNotFound"),
    }
    assert!(matches!(select_device(Vec::new(), 0), Err(UvcError::DeviceNotFound(0))));
}

#[test]
fn setup_error_messages() {
    let e = set_format_error(1280, 720, Format::YUY2);
    assert_eq!(e.message(), "フォーマットエラー: フォーマット設定に失敗しました: 1280x720 YUY2");
    match buffer_error(BufferStep::Query, 2) {
        UvcError::PlatformError(m) => assert_eq!(m, "バッファ 2 のクエリに失敗しました"),
        _ => panic!(),
    }
    match buffer_error(BufferStep::MemoryMap, 0) {
        UvcError::PlatformError(m) => assert_eq!(m, "バッファ 0 の mmap に失敗しました"),
        _ => panic!(),
    }
    let cases = [
        (SetupStep::InvalidPath, "無効なデバイスパス"),
        (SetupStep::Open, "デバイスのオープンに失敗しました"),
        (SetupStep::RequestBuffers, "バッファの要求に失敗しました"),
        (SetupStep::StreamOn, "ストリームの開始に失敗しました"),
    ];
    for (step, text) in cases {
        match setup_error(step) {
            UvcError::PlatformError(m) => assert_eq!(m, text),
            _ => panic!(),
        }
    }
    match unsupported_platform_error() {
        UvcError::PlatformError(m) => assert_eq!(m, "このプラットフォームはサポートされていません"),
        _ => panic!(),
    }
    match buffer_error(BufferStep::Queue, 3) {
        UvcError::PlatformError(m) => assert_eq!(m, "バッファ 3 のキューイングに失敗しました"),
        _ => panic!(),
    }
}

#[test]
fn buffer_decisions() {
    assert!(frame_ready(1));
    assert!(!frame_ready(0));
    assert!(!frame_ready(-1));
    assert!(buffer_index_valid(3, 4));
    assert!(!buffer_index_valid(4, 4));
    assert_eq!(timestamp_micros(12, 345), 12_000_345);
    assert_eq!(timestamp_micros(0, 0), 0);
}

#[test]
fn nv12_buffer_planes() {
    // 4x2 image: 8 luma bytes, then 1 row of 4 chroma bytes.
    let data: Vec<u8> = (0u8..12).collect();
    let frame = create_frame(data, 4, 2, Format::NV12, 99);
    assert_eq!(frame.width(), 4);
    assert_eq!(frame.height(), 2);
    assert_eq!(frame.format(), Format::NV12);
    assert_eq!(frame.timestamp(), 99);
    assert_eq!(frame.data().y_stride, 4);
    assert_eq!(frame.data().uv_stride, 4);
    assert!(frame.is_readable());
    let (y, uv) = frame.to_nv12().unwrap();
    assert_eq!(y.data, vec![0, 1, 2, 3, 4, 5, 6, 7]);
    assert_eq!(y.shape, vec![2, 4]);
    assert_eq!(uv.data, vec![8, 9, 10, 11]);
    assert_eq!(uv.shape, vec![1, 4]);
    assert!(matches!(frame.to_yuy2(), Err(FrameError::WrongFormat(Format::YUY2))));
    assert!(matches!(frame.to_rgb(), Err(FrameError::WrongFormat(Format::RGB))));
}

#[test]
fn nv12_buffer_without_chroma() {
    let frame = create_frame(vec![1u8; 8], 4, 2, Format::NV12, 0);
    assert!(frame.data().uv_plane.is_none());
    assert_eq!(frame.data().uv_stride, 0);
    assert!(matches!(frame.to_nv12(), Err(FrameError::MissingUvPlane)));
}

#[test]
fn short_nv12_buffer_is_not_readable() {
    // 9 bytes: luma complete, chroma plane of 1 byte where 4 are needed.
    let frame = create_frame(vec![0u8; 9], 4, 2, Format::NV12, 0);
    assert!(frame.data().uv_plane.is_some());
    assert!(!frame.is_readable());
}

#[test]
fn packed_buffers() {
    let data: Vec<u8> = (0u8..24).collect();
    // An RGBA capture's buffer holds RGB24 pixels: 2 rows of 3 pixels.
    let f = create_frame(data[0..18].to_vec(), 3, 2, Format::RGBA, 5);
    assert_eq!(f.data().packed_stride, 12);
    let img = f.to_rgba().unwrap();
    assert_eq!(
        img.data,
        vec![0, 1, 2, 255, 3, 4, 5, 255, 6, 7, 8, 255, 9, 10, 11, 255, 12, 13, 14, 255, 15, 16, 17, 255]
    );
    assert_eq!(img.shape, vec![2, 3, 4]);
    assert!(matches!(f.to_nv12(), Err(FrameError::WrongFormat(Format::NV12))));
    // A buffer short of its rows is kept as it came, and cannot be read.
    let f = create_frame(data[0..10].to_vec(), 3, 2, Format::RGBA, 5);
    assert_eq!(f.data().packed_plane.as_ref().unwrap().len(), 10);
    assert!(!f.is_readable());

    let f = create_frame(data[0..12].to_vec(), 3, 2, Format::YUY2, 5);
    assert_eq!(f.data().packed_stride, 6);
    let img = f.to_yuy2().unwrap();
    assert_eq!(img.data, data[0..12].to_vec());
    assert_eq!(img.shape, vec![2, 3, 2]);

    let f = create_frame(data[0..18].to_vec(), 3, 2, Format::RGB, 5);
    assert_eq!(f.data().packed_stride, 9);
    let img = f.to_rgb().unwrap();
    assert_eq!(img.shape, vec![2, 3, 3]);
    assert_eq!(img.data, data[0..18].to_vec());

    let f = create_frame(vec![0xFF, 0xD8, 0xFF], 640, 480, Format::MJPEG, 5);
    assert_eq!(f.data().packed_stride, 3);
    assert!(f.data().y_plane.is_none());
    assert!(f.is_readable());
}

#[test]
fn strided_plane_copy() {
    // Rows of 3 bytes, 5 bytes apart.
    let src: Vec<u8> = (0u8..15).collect();
    assert_eq!(copy_plane(&src, 3, 3, 5), vec![0, 1, 2, 5, 6, 7, 10, 11, 12]);
    assert_eq!(copy_plane(&src, 3, 5, 5), src);
    assert_eq!(copy_plane(&src, 0, 3, 5), Vec::<u8>::new());
    assert_eq!(copy_plane(&src, 2, 0, 5), Vec::<u8>::new());
}

fn interval(num: u32, den: u32) -> IntervalRecord {
    IntervalRecord { interval_type: V4L2_FRMIVAL_TYPE_DISCRETE, numerator: num, denominator: den }
}

fn size(w: u32, h: u32, intervals: Vec<IntervalRecord>) -> SizeRecord {
    SizeRecord { size_type: V4L2_FRMSIZE_TYPE_DISCRETE, width: w, height: h, intervals }
}

#[test]
fn rates_of_intervals() {
    assert_eq!(frame_rates(&vec![interval(1, 30), interval(1, 15), interval(2, 15)]), vec![30, 15, 7]);
    assert_eq!(frame_rates(&vec![]), vec![30]);
    assert_eq!(frame_rates(&vec![interval(0, 30)]), vec![30]);
    let stepwise = IntervalRecord { interval_type: 3, numerator: 1, denominator: 60 };
    assert_eq!(frame_rates(&vec![stepwise, interval(1, 60)]), vec![60]);
}

#[test]
fn modes_from_enumeration() {
    let records = vec![
        PixelFormatRecord {
            pixel_format: V4L2_PIX_FMT_YUYV,
            sizes: vec![
                size(640, 480, vec![interval(1, 30), interval(1, 15)]),
                SizeRecord { size_type: 3, width: 0, height: 0, intervals: vec![] },
            ],
        },
        PixelFormatRecord { pixel_format: 0x34363248, sizes: vec![size(1920, 1080, vec![interval(1, 30)])] },
        PixelFormatRecord { pixel_format: V4L2_PIX_FMT_MJPEG, sizes: vec![size(1280, 720, vec![])] },
        PixelFormatRecord { pixel_format: V4L2_PIX_FMT_YUYV, sizes: vec![size(320, 240, vec![interval(1, 60)])] },
    ];
    let modes = supported_formats(&records);
    assert_eq!(
        modes,
        vec![
            FormatInfo::new(640, 480, 30, Format::YUY2),
            FormatInfo::new(640, 480, 15, Format::YUY2),
            FormatInfo::new(320, 240, 60, Format::YUY2),
            FormatInfo::new(1280, 720, 30, Format::MJPEG),
        ]
    );
    assert_eq!(supported_formats(&vec![]), vec![]);
}

#[test]
fn frame_interval_from_rate() {
    assert_eq!(frame_interval(0), None);
    assert_eq!(frame_interval(30), Some((1, 30)));
    assert_eq!(frame_interval(60), Some((1, 60)));
}
