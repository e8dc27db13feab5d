//! The values that describe a camera: its formats, its identity and its modes.

use vstd::prelude::*;

use crate::text::{decimal, push_decimal, push_str};

verus! {

/// A pixel layout that a camera can deliver.
#[allow(clippy::upper_case_acronyms)]
#[derive(Clone, Copy, PartialEq, Eq, Debug, Hash, Structural)]
pub enum Format {
    MJPEG,
    YUY2,
    NV12,
    RGB,
    RGBA,
}

/// The bare name of a format, as `FormatInfo` prints it.
pub open spec fn format_name(f: Format) -> Seq<char> {
    match f {
        Format::MJPEG => "MJPEG"@,
        Format::YUY2 => "YUY2"@,
        Format::NV12 => "NV12"@,
        Format::RGB => "RGB"@,
        Format::RGBA => "RGBA"@,
    }
}

/// The qualified name of a format, as its representation prints it.
pub open spec fn format_repr(f: Format) -> Seq<char> {
    match f {
        Format::MJPEG => "Format.MJPEG"@,
        Format::YUY2 => "Format.YUY2"@,
        Format::NV12 => "Format.NV12"@,
        Format::RGB => "Format.RGB"@,
        Format::RGBA => "Format.RGBA"@,
    }
}

impl Format {
    /// The bare name of the format (`"NV12"`).
    pub fn name(&self) -> (r: &'static str)
        ensures
            r@ == format_name(*self),
    {
        match self {
            Format::MJPEG => "MJPEG",
            Format::YUY2 => "YUY2",
            Format::NV12 => "NV12",
            Format::RGB => "RGB",
            Format::RGBA => "RGBA",
        }
    }

    /// The representation of the format (`"Format.NV12"`).
    pub fn repr(&self) -> (r: String)
        ensures
            r@ == format_repr(*self),
    {
        let mut s = String::new();
        match self {
            Format::MJPEG => push_str(&mut s, "Format.MJPEG"),
            Format::YUY2 => push_str(&mut s, "Format.YUY2"),
            Format::NV12 => push_str(&mut s, "Format.NV12"),
            Format::RGB => push_str(&mut s, "Format.RGB"),
            Format::RGBA => push_str(&mut s, "Format.RGBA"),
        }
        s
    }
}

/// The identity of a camera: its name, a stable identifier and its position
/// in the device list.
#[derive(Clone, Debug)]
pub struct DeviceInfo {
    pub name: String,
    pub unique_id: String,
    pub index: u32,
}

/// The representation of a device, `DeviceInfo(name='<name>', index=<index>)`.
pub open spec fn device_info_repr(name: Seq<char>, index: u32) -> Seq<char> {
    "DeviceInfo(name='"@ + name + "', index="@ + decimal(index as nat) + ")"@
}

impl DeviceInfo {
    pub fn new(name: String, unique_id: String, index: u32) -> (r: Self)
        ensures
            r.name == name,
            r.unique_id == unique_id,
            r.index == index,
    {
        DeviceInfo { name, unique_id, index }
    }

    /// The representation of the device.
    pub fn repr(&self) -> (r: String)
        ensures
            r@ == device_info_repr(self.name@, self.index),
    {
        let mut s = String::new();
        push_str(&mut s, "DeviceInfo(name='");
        push_str(&mut s, self.name.as_str());
        push_str(&mut s, "', index=");
        push_decimal(&mut s, self.index);
        push_str(&mut s, ")");
        s
    }
}

/// One capture mode of a camera.
#[derive(Clone, Copy, Debug, PartialEq, Eq, Structural)]
pub struct FormatInfo {
    pub width: u32,
    pub height: u32,
    pub fps: u32,
    pub format: Format,
}

/// The representation of a mode, `<width>x<height>@<fps>fps (<format>)`.
pub open spec fn format_info_repr(m: FormatInfo) -> Seq<char> {
    decimal(m.width as nat) + "x"@ + decimal(m.height as nat) + "@"@ + decimal(m.fps as nat)
        + "fps ("@ + format_name(m.format) + ")"@
}

impl FormatInfo {
    pub fn new(width: u32, height: u32, fps: u32, format: Format) -> (r: Self)
        ensures
            r == (FormatInfo { width, height, fps, format }),
    {
        FormatInfo { width, height, fps, format }
    }

    /// The representation of the mode (`"1920x1080@30fps (NV12)"`).
    pub fn repr(&self) -> (r: String)
        ensures
            r@ == format_info_repr(*self),
    {
        let mut s = String::new();
        push_decimal(&mut s, self.width);
        push_str(&mut s, "x");
        push_decimal(&mut s, self.height);
        push_str(&mut s, "@");
        push_decimal(&mut s, self.fps);
        push_str(&mut s, "fps (");
        push_str(&mut s, self.format.name());
        push_str(&mut s, ")");
        s
    }
}

} // verus!
