use uvc::error::{FrameError, UvcError};
use uvc::text::{bytes_to_string, push_decimal};
use uvc::types::{DeviceInfo, Format, FormatInfo};

#[test]
fn decimal_numbers() {
    let mut s = String::new();
    push_decimal(&mut s, 0);
    assert_eq!(s, "0");
    let mut s = String::from("n=");
    push_decimal(&mut s, 305);
    assert_eq!(s, "n=305");
    let mut s = String::new();
    push_decimal(&mut s, u32::MAX);
    assert_eq!(s, "4294967295");
}

#[test]
fn format_reprs_and_names() {
    assert_eq!(Format::MJPEG.repr(), "Format.MJPEG");
    assert_eq!(Format::YUY2.repr(), "Format.YUY2");
    assert_eq!(Format::NV12.repr(), "Format.NV12");
    assert_eq!(Format::RGB.repr(), "Format.RGB");
    assert_eq!(Format::RGBA.repr(), "Format.RGBA");
    assert_eq!(Format::NV12.name(), "NV12");
    assert_eq!(Format::MJPEG.name(), "MJPEG");
}

#[test]
fn device_info_repr() {
    let d = DeviceInfo::new("HD Camera".to_string(), "/dev/video0".to_string(), 3);
    assert_eq!(d.repr(), "DeviceInfo(name='HD Camera', index=3)");
    assert_eq!(d.unique_id, "/dev/video0");
}

#[test]
fn format_info_repr() {
    let m = FormatInfo::new(1920, 1080, 30, Format::NV12);
    assert_eq!(m.repr(), "1920x1080@30fps (NV12)");
    let m = FormatInfo::new(0, 0, 0, Format::MJPEG);
    assert_eq!(m.repr(), "0x0@0fps (MJPEG)");
    let m = FormatInfo::new(640, 480, 15, Format::RGBA);
    assert_eq!(m.repr(), "640x480@15fps (RGBA)");
}

#[test]
fn uvc_error_messages() {
    assert_eq!(UvcError::DeviceNotFound(7).message(), "デバイスが見つかりません: 7");
    assert_eq!(UvcError::CaptureError("x".to_string()).message(), "キャプチャエラー: x");
    assert_eq!(UvcError::FormatError("bad".to_string()).message(), "フォーマットエラー: bad");
    assert_eq!(UvcError::AlreadyRunning.message(), "デバイスは既に実行中です");
    assert_eq!(UvcError::NotRunning.message(), "デバイスは実行中ではありません");
    assert_eq!(
        UvcError::PlatformError("io".to_string()).message(),
        "プラットフォームエラー: io"
    );
}

#[test]
fn frame_error_messages() {
    assert_eq!(FrameError::WrongFormat(Format::NV12).message(), "Frame is not NV12 format");
    assert_eq!(FrameError::WrongFormat(Format::YUY2).message(), "Frame is not YUY2 format");
    assert_eq!(FrameError::WrongFormat(Format::RGB).message(), "Frame is not RGB format");
    assert_eq!(FrameError::WrongFormat(Format::RGBA).message(), "Frame is not RGBA format");
    assert_eq!(FrameError::MissingYPlane.message(), "NV12 Y plane not set");
    assert_eq!(FrameError::MissingUvPlane.message(), "NV12 UV plane not set");
    assert_eq!(FrameError::MissingPackedPlane.message(), "Packed plane not set");
}

#[test]
fn nul_terminated_names() {
    assert_eq!(bytes_to_string(b"HD Camera\0\0junk"), "HD Camera");
    assert_eq!(bytes_to_string(b"no terminator"), "no terminator");
    assert_eq!(bytes_to_string(b"\0after"), "");
    assert_eq!(bytes_to_string(b""), "");
    assert_eq!(bytes_to_string("カメラ\0".as_bytes()), "カメラ");
    assert_eq!(bytes_to_string(&[0x41, 0xFF, 0x42, 0x00, 0x43]), "A\u{FFFD}B");
}
