use uvc::avfoundation::{
    code_matches, device_format_modes, format_candidate, frame_format, mode_format,
    kept_format, output_pixel_format, pixel_buffer_frame, pixel_layout, session_error,
    unknown_device_error,
    unsupported_format_error, BufferPlanes, SessionStep, CV_24BGR, CV_24RGB, CV_2VUY, CV_32ARGB,
    CV_32BGRA, CV_420F, CV_420V, CV_YUVS,
};
use uvc::capture::{requested_index, CaptureState, DeviceSession};
use uvc::error::{FrameError, UvcError};
use uvc::frame::{reorder_pixels, Frame, FrameData};
use uvc::presence::{PresenceChange, PresenceTracker};
use uvc::types::{DeviceInfo, Format, FormatInfo};

fn frame(ts: u64) -> Frame {
    Frame::new(FrameData {
        width: 2,
        height: 1,
        format: Format::YUY2,
        timestamp: ts,
        y_plane: None,
        y_stride: 0,
        uv_plane: None,
        uv_stride: 0,
        packed_plane: Some(vec![1, 2, 3, 4]),
        packed_stride: 4,
    })
}

#[test]
fn session_start_and_stop() {
    let mut s = CaptureState::new();
    assert!(!s.is_running());
    assert!(!s.stop_needed());
    assert_eq!(s.current_format(), None);
    assert!(s.check_start().is_ok());
    s.mark_started(1280, 720, Format::NV12);
    assert!(s.is_running());
    assert_eq!(s.current_format(), Some((1280, 720, Format::NV12)));
    assert!(matches!(s.check_start(), Err(UvcError::AlreadyRunning)));
    assert!(s.stop_needed());
    s.publish_frame(frame(1));
    s.mark_stopped();
    assert!(!s.is_running());
    assert!(s.take_frame().is_none());
    assert!(s.check_start().is_ok());
}

#[test]
fn latest_frame_is_taken_once() {
    let mut s = CaptureState::new();
    s.mark_started(640, 480, Format::YUY2);
    assert!(s.take_frame().is_none());
    s.publish_frame(frame(1));
    s.publish_frame(frame(2));
    let f = s.take_frame().unwrap();
    assert_eq!(f.timestamp(), 2);
    assert!(s.take_frame().is_none());
    s.publish_frame(frame(3));
    assert_eq!(s.take_frame().unwrap().timestamp(), 3);
}

fn devices() -> Vec<DeviceInfo> {
    vec![
        DeviceInfo::new("A".to_string(), "/dev/video0".to_string(), 0),
        DeviceInfo::new("B".to_string(), "/dev/video2".to_string(), 1),
    ]
}

#[test]
fn opened_device_keeps_its_description() {
    let mut d = DeviceSession::open(devices(), 1).unwrap();
    let before = d.info();
    assert_eq!((before.name.as_str(), before.unique_id.as_str(), before.index), ("B", "/dev/video2", 1));
    assert!(!d.is_running());
    d.mark_started(320, 240, Format::RGB);
    assert!(d.is_running());
    assert_eq!(d.current_format(), Some((320, 240, Format::RGB)));
    assert!(matches!(d.check_start(), Err(UvcError::AlreadyRunning)));
    d.publish_frame(frame(5));
    let during = d.info();
    assert_eq!((during.name, during.unique_id, during.index), ("B".to_string(), "/dev/video2".to_string(), 1));
    assert_eq!(d.take_frame().unwrap().timestamp(), 5);
    d.mark_stopped();
    assert!(!d.is_running());
    d.mark_stopped();
    assert!(!d.is_running());
    assert_eq!(d.info().name, "B");
    assert!(matches!(DeviceSession::open(devices(), 2), Err(UvcError::DeviceNotFound(2))));
}

#[test]
fn stop_of_idle_session_keeps_frame() {
    let mut d = DeviceSession::open(devices(), 0).unwrap();
    d.publish_frame(frame(9));
    d.mark_stopped();
    assert_eq!(d.take_frame().unwrap().timestamp(), 9);
}

#[test]
fn open_argument() {
    let d = DeviceInfo::new("Cam".to_string(), "id".to_string(), 4);
    assert_eq!(requested_index(Some(2), None), Some(2));
    assert_eq!(requested_index(Some(2), Some(&d)), Some(2));
    assert_eq!(requested_index(None, Some(&d)), Some(4));
    assert_eq!(requested_index(None, None), None);
}

#[test]
fn corevideo_codes() {
    assert_eq!(CV_420V, u32::from_be_bytes(*b"420v"));
    assert_eq!(CV_32BGRA, u32::from_be_bytes(*b"BGRA"));
    assert_eq!(mode_format(CV_420V), Some(Format::NV12));
    assert_eq!(mode_format(CV_420F), Some(Format::NV12));
    assert_eq!(mode_format(CV_2VUY), Some(Format::YUY2));
    assert_eq!(mode_format(CV_YUVS), Some(Format::YUY2));
    assert_eq!(mode_format(CV_32BGRA), Some(Format::RGBA));
    assert_eq!(mode_format(CV_32ARGB), Some(Format::RGBA));
    assert_eq!(mode_format(CV_24RGB), Some(Format::RGB));
    assert_eq!(mode_format(CV_24BGR), Some(Format::RGB));
    assert_eq!(mode_format(0x6A706567), None);
    assert_eq!(frame_format(CV_24RGB), None);
    assert_eq!(frame_format(CV_420F), Some(Format::NV12));
    assert_eq!(output_pixel_format(Format::NV12), CV_420F);
    assert_eq!(output_pixel_format(Format::YUY2), CV_YUVS);
    assert_eq!(output_pixel_format(Format::RGB), CV_32BGRA);
    assert_eq!(output_pixel_format(Format::MJPEG), CV_32BGRA);
    for f in [Format::NV12, Format::YUY2, Format::RGB, Format::RGBA] {
        assert_eq!(kept_format(output_pixel_format(f), f), Some(f));
    }
    assert_eq!(kept_format(output_pixel_format(Format::MJPEG), Format::MJPEG), Some(Format::RGBA));
    assert_eq!(kept_format(CV_32BGRA, Format::RGB), Some(Format::RGB));
    assert_eq!(kept_format(CV_32ARGB, Format::RGBA), Some(Format::RGBA));
    assert_eq!(kept_format(CV_24RGB, Format::RGB), None);
    assert!(code_matches(Format::RGB, CV_24BGR));
    assert!(!code_matches(Format::RGBA, CV_24BGR));
    assert!(!code_matches(Format::MJPEG, CV_32BGRA));
    assert_eq!(pixel_layout(CV_32BGRA, Format::RGBA), (4, vec![2, 1, 0, 3]));
    assert_eq!(pixel_layout(CV_32BGRA, Format::RGB), (4, vec![2, 1, 0]));
    assert_eq!(pixel_layout(CV_32ARGB, Format::RGBA), (4, vec![1, 2, 3, 0]));
    assert_eq!(pixel_layout(CV_32ARGB, Format::RGB), (4, vec![1, 2, 3]));
    assert_eq!(pixel_layout(CV_2VUY, Format::YUY2), (2, vec![1, 0]));
    assert_eq!(pixel_layout(CV_YUVS, Format::YUY2), (0, Vec::<usize>::new()));
}

#[test]
fn choosing_device_formats() {
    assert!(format_candidate(1920, 1080, CV_420V, 1920, 1080, Format::NV12));
    assert!(!format_candidate(1280, 720, CV_420V, 1920, 1080, Format::NV12));
    assert!(!format_candidate(1920, 1080, CV_YUVS, 1920, 1080, Format::NV12));
    assert_eq!(
        device_format_modes(640, 480, CV_YUVS, &vec![30, 15]),
        vec![FormatInfo::new(640, 480, 30, Format::YUY2), FormatInfo::new(640, 480, 15, Format::YUY2)]
    );
    assert_eq!(device_format_modes(640, 480, 0x6A706567, &vec![30]), vec![]);
}

#[test]
fn avfoundation_error_messages() {
    match unsupported_format_error(1920, 1080, 30, Format::NV12) {
        UvcError::FormatError(m) => assert_eq!(m, "サポートされていないフォーマット: 1920x1080@30 NV12"),
        _ => panic!(),
    }
    match unsupported_format_error(640, 480, 5, Format::MJPEG) {
        UvcError::FormatError(m) => {
            assert_eq!(m, "サポートされていないフォーマット: 640x480@5 MJPEG (not supported)")
        }
        _ => panic!(),
    }
    let cases = [
        (SessionStep::DiscoveryClass, "AVCaptureDeviceDiscoverySession クラスが見つかりません"),
        (SessionStep::DiscoverySession, "ディスカバリセッションの作成に失敗しました"),
        (SessionStep::LockDevice, "デバイスのロックに失敗しました"),
        (SessionStep::CreateInput, "入力デバイスの作成に失敗しました"),
    ];
    for (step, text) in cases {
        match session_error(step) {
            UvcError::PlatformError(m) => assert_eq!(m, text),
            _ => panic!(),
        }
    }
    match unknown_device_error("0x1234") {
        UvcError::PlatformError(m) => assert_eq!(m, "デバイスが見つかりません: 0x1234"),
        _ => panic!(),
    }
}

#[test]
fn planar_pixel_buffers() {
    let planar = BufferPlanes::Planar { y: vec![1, 2, 0, 3, 4, 0], y_stride: 3, uv: vec![5, 6, 0], uv_stride: 3 };
    let f = pixel_buffer_frame(2, 2, CV_420F, Format::NV12, 7, planar).unwrap();
    assert_eq!(f.format(), Format::NV12);
    assert!(f.is_readable());
    let (y, uv) = f.to_nv12().unwrap();
    assert_eq!(y.data, vec![1, 2, 3, 4]);
    assert_eq!(uv.data, vec![5, 6]);
    assert_eq!(uv.shape, vec![1, 2]);
    let planar = BufferPlanes::Planar { y: vec![1], y_stride: 1, uv: vec![], uv_stride: 1 };
    assert!(pixel_buffer_frame(1, 1, CV_24RGB, Format::RGB, 7, planar).is_none());
}

#[test]
fn bgra_buffers_become_rgba() {
    // Two rows of one BGRA pixel, rows 6 bytes apart.
    let packed = BufferPlanes::Packed { data: vec![1, 2, 3, 4, 0, 0, 5, 6, 7, 8, 0, 0], stride: 6 };
    let f = pixel_buffer_frame(1, 2, CV_32BGRA, Format::RGBA, 7, packed).unwrap();
    assert_eq!(f.format(), Format::RGBA);
    assert_eq!(f.data().packed_stride, 4);
    let img = f.to_rgba().unwrap();
    assert_eq!(img.data, vec![3, 2, 1, 4, 7, 6, 5, 8]);
    assert_eq!(img.shape, vec![2, 1, 4]);
}

#[test]
fn argb_buffers_become_rgba() {
    let packed = BufferPlanes::Packed { data: vec![255, 10, 20, 30, 128, 40, 50, 60], stride: 8 };
    let f = pixel_buffer_frame(2, 1, CV_32ARGB, Format::RGBA, 0, packed).unwrap();
    assert_eq!(f.to_rgba().unwrap().data, vec![10, 20, 30, 255, 40, 50, 60, 128]);
}

#[test]
fn uyvy_buffers_become_yuy2() {
    // U Y0 V Y1 for a pair of pixels.
    let packed = BufferPlanes::Packed { data: vec![100, 16, 200, 17], stride: 4 };
    let f = pixel_buffer_frame(2, 1, CV_2VUY, Format::YUY2, 0, packed).unwrap();
    assert_eq!(f.format(), Format::YUY2);
    assert_eq!(f.to_yuy2().unwrap().data, vec![16, 100, 17, 200]);
}

#[test]
fn yuy2_buffers_are_kept_as_delivered() {
    let packed = BufferPlanes::Packed { data: vec![16, 100, 17, 200, 9, 9], stride: 6 };
    let f = pixel_buffer_frame(2, 1, CV_YUVS, Format::YUY2, 0, packed).unwrap();
    assert_eq!(f.data().packed_stride, 6);
    assert_eq!(f.to_yuy2().unwrap().data, vec![16, 100, 17, 200]);
}

#[test]
fn buffers_whose_rows_do_not_fit_are_dropped() {
    let packed = BufferPlanes::Packed { data: vec![1, 2, 3, 4, 5, 6, 7], stride: 4 };
    assert!(pixel_buffer_frame(1, 2, CV_32BGRA, Format::RGBA, 0, packed).is_none());
    let packed = BufferPlanes::Packed { data: vec![1, 2, 3, 4, 5, 6, 7, 8], stride: 2 };
    assert!(pixel_buffer_frame(1, 2, CV_32BGRA, Format::RGBA, 0, packed).is_none());
    let packed = BufferPlanes::Packed { data: vec![1, 2, 3, 4], stride: 4 };
    assert!(pixel_buffer_frame(1, 1, 0x6A706567, Format::RGBA, 0, packed).is_none());
    let missing = Frame::new(FrameData {
        width: 1,
        height: 1,
        format: Format::RGBA,
        timestamp: 0,
        y_plane: None,
        y_stride: 0,
        uv_plane: None,
        uv_stride: 0,
        packed_plane: None,
        packed_stride: 0,
    });
    assert!(matches!(missing.to_rgba(), Err(FrameError::MissingPackedPlane)));
}

#[test]
fn reordering_pixels() {
    let src: Vec<u8> = (0u8..14).collect();
    // Two rows of two 3-byte pixels, 7 bytes apart, bytes reversed.
    let out = reorder_pixels(&src, 2, 2, 7, 3, &[2, 1, 0]);
    assert_eq!(out, vec![2, 1, 0, 5, 4, 3, 9, 8, 7, 12, 11, 10]);
    assert_eq!(reorder_pixels(&src, 0, 2, 7, 3, &[0]), Vec::<u8>::new());
    // Three-byte pixels become four-byte pixels with an opaque alpha.
    assert_eq!(reorder_pixels(&src, 1, 2, 7, 3, &[0, 1, 2, 3]), vec![0, 1, 2, 255, 3, 4, 5, 255]);
    // Four-byte pixels lose their last byte.
    assert_eq!(reorder_pixels(&src, 1, 1, 7, 4, &[2, 1, 0]), vec![2, 1, 0]);
}

#[test]
fn bgra_buffers_of_rgb_captures_become_rgb() {
    let packed = BufferPlanes::Packed { data: vec![1, 2, 3, 4, 9, 5, 6, 7, 8, 9], stride: 5 };
    let f = pixel_buffer_frame(1, 2, CV_32BGRA, Format::RGB, 7, packed).unwrap();
    assert_eq!(f.format(), Format::RGB);
    assert_eq!(f.data().packed_stride, 3);
    let img = f.to_rgb().unwrap();
    assert_eq!(img.data, vec![3, 2, 1, 7, 6, 5]);
    assert_eq!(img.shape, vec![2, 1, 3]);
    assert!(matches!(f.to_rgba(), Err(FrameError::WrongFormat(Format::RGBA))));
    let packed = BufferPlanes::Packed { data: vec![255, 10, 20, 30], stride: 4 };
    let f = pixel_buffer_frame(1, 1, CV_32ARGB, Format::RGB, 7, packed).unwrap();
    assert_eq!(f.to_rgb().unwrap().data, vec![10, 20, 30]);
}

#[test]
fn presence_changes() {
    let mut t = PresenceTracker::new(true);
    assert!(t.is_present());
    assert_eq!(t.observe(true), None);
    assert_eq!(t.observe(false), Some(PresenceChange::Disconnected));
    assert!(!t.is_present());
    assert_eq!(t.observe(false), None);
    assert_eq!(t.observe(true), Some(PresenceChange::Connected));
    assert_eq!(t.observe(true), None);
    let mut t = PresenceTracker::new(false);
    assert_eq!(t.observe(true), Some(PresenceChange::Connected));
}
