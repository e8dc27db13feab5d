//! Frame layouts, device bookkeeping and format tables for UVC cameras.
//!
//! The library holds what a UVC capture backend decides and computes: the
//! pixel-format tables of V4L2 and CoreVideo, the enumeration of video nodes,
//! the state of a capture session, and the extraction of tightly packed image
//! planes from strided camera buffers.

pub mod avfoundation;
pub mod capture;
pub mod error;
pub mod frame;
pub mod presence;
pub mod text;
pub mod types;
pub mod v4l2;
