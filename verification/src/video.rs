//! The video half of the capture layer: frame, configuration and capability
//! types.
use crate::time::Timestamp;
use bytes::Bytes;
use vstd::prelude::*;

verus! {

/// Capacity of the bounded broadcast channel a video source publishes on.
///
/// Small on purpose: for live monitoring a consumer always wants the latest
/// frame, never a backlog.
pub const VIDEO_CHANNEL_CAPACITY: usize = 8;

/// The shared byte buffer of the `bytes` crate, in which frame payloads travel.
#[verifier::external_type_specification]
#[verifier::external_body]
pub struct ExBytes(Bytes);

/// The bytes that a [`Bytes`] handle refers to.
pub uninterp spec fn bytes_contents(b: Bytes) -> Seq<u8>;

/// `Bytes::as_ref` gives the bytes that the handle refers to.
#[verifier::external_body]
pub(crate) fn bytes_as_slice(b: &Bytes) -> (s: &[u8])
    ensures
        s@ == bytes_contents(*b),
{
    b.as_ref()
}

/// `Bytes::from` takes the bytes of the vector over, unchanged.
#[verifier::external_body]
pub(crate) fn bytes_from_vec(v: Vec<u8>) -> (b: Bytes)
    ensures
        bytes_contents(b) == v@,
{
    Bytes::from(v)
}

/// `Bytes::clone` gives another handle to the same bytes.
pub assume_specification[ <Bytes as Clone>::clone ](b: &Bytes) -> (r: Bytes)
    ensures
        bytes_contents(r) == bytes_contents(*b),
;

/// The pixel and byte layout of a [`VideoFrame`]'s payload.
///
/// Frames are carried in whatever format the source natively produces.
#[derive(Debug, Clone, Copy, PartialEq, Eq, Hash, Structural)]
#[non_exhaustive]
pub enum PixelFormat {
    /// Packed YUV 4:2:2 (2 bytes per pixel), the most common raw UVC format.
    Yuyv,
    /// Motion-JPEG: each frame is an independent JPEG image.
    Mjpeg,
    /// Semi-planar YUV 4:2:0: Y plane followed by interleaved UV.
    Nv12,
    /// Packed 8-bit RGB (3 bytes per pixel).
    Rgb24,
    /// Single-channel 8-bit grayscale.
    Luma8,
}

impl PixelFormat {
    /// Whether the payload is a compressed bitstream rather than raw pixels.
    pub fn is_compressed(&self) -> (b: bool)
        ensures
            b == (*self is Mjpeg),
    {
        matches!(self, PixelFormat::Mjpeg)
    }

    /// The format's name.
    pub open spec fn label(&self) -> Seq<char> {
        match self {
            PixelFormat::Yuyv => "Yuyv"@,
            PixelFormat::Mjpeg => "Mjpeg"@,
            PixelFormat::Nv12 => "Nv12"@,
            PixelFormat::Rgb24 => "Rgb24"@,
            PixelFormat::Luma8 => "Luma8"@,
        }
    }

    /// The format's name.
    pub fn name(&self) -> (s: &'static str)
        ensures
            s@ == self.label(),
    {
        match self {
            PixelFormat::Yuyv => "Yuyv",
            PixelFormat::Mjpeg => "Mjpeg",
            PixelFormat::Nv12 => "Nv12",
            PixelFormat::Rgb24 => "Rgb24",
            PixelFormat::Luma8 => "Luma8",
        }
    }
}

/// One captured video frame.
///
/// The payload is a [`Bytes`] handle, so cloning a frame is a reference-count
/// bump, never a pixel copy.
#[derive(Debug)]
pub struct VideoFrame {
    /// Monotonic capture time, stamped at the source.
    pub ts: Timestamp,
    /// Layout of `data`.
    pub format: PixelFormat,
    /// Frame width in pixels.
    pub width: u32,
    /// Frame height in pixels.
    pub height: u32,
    /// Raw or compressed payload, per `format`.
    pub data: Bytes,
}

impl Clone for VideoFrame {
    /// The same frame, sharing its payload.
    fn clone(&self) -> (frame: VideoFrame)
        ensures
            frame.ts == self.ts,
            frame.format == self.format,
            frame.width == self.width,
            frame.height == self.height,
            bytes_contents(frame.data) == bytes_contents(self.data),
    {
        VideoFrame {
            ts: self.ts,
            format: self.format,
            width: self.width,
            height: self.height,
            data: self.data.clone(),
        }
    }
}

/// Requested video capture configuration.
///
/// Hardware sources open the closest mode the device supports; the simulated
/// source honors it exactly.
#[derive(Debug, Clone, PartialEq, Eq)]
pub struct VideoConfig {
    /// Device selector: an index (`"0"`) or a device name. `None` selects the
    /// platform default camera.
    pub device: Option<String>,
    /// Requested frame width in pixels.
    pub width: u32,
    /// Requested frame height in pixels.
    pub height: u32,
    /// Requested frame rate in frames per second.
    pub fps: u32,
}

impl Default for VideoConfig {
    /// 720p at 15 fps on the default camera.
    fn default() -> (cfg: VideoConfig)
        ensures
            cfg.device is None,
            cfg.width == 1280,
            cfg.height == 720,
            cfg.fps == 15,
    {
        VideoConfig { device: None, width: 1280, height: 720, fps: 15 }
    }
}

/// One capture mode a video source can produce.
#[derive(Debug, Clone, Copy, PartialEq, Eq, Structural)]
pub struct VideoMode {
    pub width: u32,
    pub height: u32,
    pub fps: u32,
    pub format: PixelFormat,
}

/// What a video source can do: the modes it can capture in, probed at open
/// time.
#[derive(Debug, Clone)]
pub struct VideoCaps {
    pub modes: Vec<VideoMode>,
}

impl Default for VideoCaps {
    /// No modes.
    fn default() -> (caps: VideoCaps)
        ensures
            caps.modes@ == Seq::<VideoMode>::empty(),
    {
        VideoCaps { modes: Vec::new() }
    }
}

/// Formats are told apart by their names, which are those of their variants.
pub proof fn law_format_names_differ(a: PixelFormat, b: PixelFormat)
    ensures
        a.label() == b.label() ==> a == b,
        a.label() == (match a {
            PixelFormat::Yuyv => "Yuyv"@,
            PixelFormat::Mjpeg => "Mjpeg"@,
            PixelFormat::Nv12 => "Nv12"@,
            PixelFormat::Rgb24 => "Rgb24"@,
            PixelFormat::Luma8 => "Luma8"@,
        }),
{
    reveal_strlit("Yuyv");
    reveal_strlit("Mjpeg");
    reveal_strlit("Nv12");
    reveal_strlit("Rgb24");
    reveal_strlit("Luma8");
    assert("Yuyv"@[0] == 'Y');
    assert("Mjpeg"@[0] == 'M');
    assert("Nv12"@[0] == 'N');
    assert("Rgb24"@[0] == 'R');
    assert("Luma8"@[0] == 'L');
    if a.label() == b.label() {
        assert(a.label()[0] == b.label()[0]);
    }
}

} // verus!
