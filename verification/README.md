# uvc

Capture from UVC cameras, with the decisions and computations of the capture
backends verified with Verus.

- `src/` is the verified library:
  - `types.rs`: formats, device descriptions and capture modes, with their
    printed representations;
  - `error.rs`: the errors and their messages;
  - `text.rs`: decimal numbers and NUL-terminated names;
  - `frame.rs`: frames and the extraction of packed images (NV12 planes,
    YUY2, RGB, RGBA pixels) from strided planes;
  - `capture.rs`: the state of a capture session (running, mode, latest
    frame), an opened device that keeps its description, and their laws;
  - `presence.rs`: the connect and disconnect notifications drawn from
    successive observations of whether a device is there;
  - `v4l2.rs`: V4L2 pixel-format codes, the listing of `/dev/video*` nodes,
    the time per frame asked for a frame rate, frames made of driver buffers
    (RGB24 buffers of an RGBA capture are widened to RGBA with an opaque
    alpha), and the capture modes a driver enumerates;
  - `avfoundation.rs`: CoreVideo pixel-format codes, the choice of a device
    format and frames made of pixel buffers, whose BGRA, ARGB and UYVY pixels
    are put in the byte order of the capture format (RGB, RGBA or YUY2).
- The `output_format` argument of `start` is accepted and ignored: frames come
  in the capture format, and `to_nv12`, `to_yuy2`, `to_rgb` and `to_rgba` read
  a frame of that format only.
- `app/` holds the Python extension module (PyO3 and NumPy) and the system
  calls of the V4L2 and AVFoundation backends.
- `tests/` runs the library on concrete values.
