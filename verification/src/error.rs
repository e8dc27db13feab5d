//! The errors of the library and the messages they carry.

use vstd::prelude::*;

use crate::text::{decimal, push_decimal, push_str};
use crate::types::{Format, format_name};

verus! {

/// What can go wrong while finding, configuring or running a camera.
#[derive(Debug)]
pub enum UvcError {
    /// No camera has this index.
    DeviceNotFound(u32),
    /// Capturing failed.
    CaptureError(String),
    /// The camera refused a format.
    FormatError(String),
    /// A capture is already running.
    AlreadyRunning,
    /// No capture is running.
    NotRunning,
    /// The operating system interface failed.
    PlatformError(String),
}

/// The message of an error, as it is shown to the user.
pub open spec fn uvc_error_message(e: UvcError) -> Seq<char> {
    match e {
        UvcError::DeviceNotFound(index) => "デバイスが見つかりません: "@ + decimal(index as nat),
        UvcError::CaptureError(msg) => "キャプチャエラー: "@ + msg@,
        UvcError::FormatError(msg) => "フォーマットエラー: "@ + msg@,
        UvcError::AlreadyRunning => "デバイスは既に実行中です"@,
        UvcError::NotRunning => "デバイスは実行中ではありません"@,
        UvcError::PlatformError(msg) => "プラットフォームエラー: "@ + msg@,
    }
}

impl UvcError {
    /// The message of the error.
    pub fn message(&self) -> (r: String)
        ensures
            r@ == uvc_error_message(*self),
    {
        let mut s = String::new();
        match self {
            UvcError::DeviceNotFound(index) => {
                push_str(&mut s, "デバイスが見つかりません: ");
                push_decimal(&mut s, *index);
            },
            UvcError::CaptureError(msg) => {
                push_str(&mut s, "キャプチャエラー: ");
                push_str(&mut s, msg.as_str());
            },
            UvcError::FormatError(msg) => {
                push_str(&mut s, "フォーマットエラー: ");
                push_str(&mut s, msg.as_str());
            },
            UvcError::AlreadyRunning => {
                push_str(&mut s, "デバイスは既に実行中です");
            },
            UvcError::NotRunning => {
                push_str(&mut s, "デバイスは実行中ではありません");
            },
            UvcError::PlatformError(msg) => {
                push_str(&mut s, "プラットフォームエラー: ");
                push_str(&mut s, msg.as_str());
            },
        }
        s
    }
}

/// The error of a platform that has no camera backend.
pub fn unsupported_platform_error() -> (r: UvcError)
    ensures
        r matches UvcError::PlatformError(msg) && msg@ == "このプラットフォームはサポートされていません"@,
{
    let mut s = String::new();
    push_str(&mut s, "このプラットフォームはサポートされていません");
    UvcError::PlatformError(s)
}

/// Why a frame could not be turned into an image.
#[derive(Debug, Clone, Copy, PartialEq, Eq, Structural)]
pub enum FrameError {
    /// The frame does not have the requested format (the requested one is held).
    WrongFormat(Format),
    /// The NV12 frame has no luma plane.
    MissingYPlane,
    /// The NV12 frame has no chroma plane.
    MissingUvPlane,
    /// The packed frame has no pixel plane.
    MissingPackedPlane,
}

/// The message of a frame error, as it is shown to the user.
pub open spec fn frame_error_message(e: FrameError) -> Seq<char> {
    match e {
        FrameError::WrongFormat(f) => "Frame is not "@ + format_name(f) + " format"@,
        FrameError::MissingYPlane => "NV12 Y plane not set"@,
        FrameError::MissingUvPlane => "NV12 UV plane not set"@,
        FrameError::MissingPackedPlane => "Packed plane not set"@,
    }
}

impl FrameError {
    /// The message of the error.
    pub fn message(&self) -> (r: String)
        ensures
            r@ == frame_error_message(*self),
    {
        let mut s = String::new();
        match self {
            FrameError::WrongFormat(f) => {
                push_str(&mut s, "Frame is not ");
                push_str(&mut s, f.name());
                push_str(&mut s, " format");
            },
            FrameError::MissingYPlane => push_str(&mut s, "NV12 Y plane not set"),
            FrameError::MissingUvPlane => push_str(&mut s, "NV12 UV plane not set"),
            FrameError::MissingPackedPlane => push_str(&mut s, "Packed plane not set"),
        }
        s
    }
}

} // verus!
