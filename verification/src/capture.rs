//! Captured frames and the file format in which one process hands a frame to another.

use vstd::bytes::{
    spec_u32_from_le_bytes, spec_u32_to_le_bytes, u32_from_le_bytes, u32_to_le_bytes,
};
use vstd::prelude::*;
use vstd::slice::slice_subrange;

use crate::bytes::append_range;

verus! {

/// An image of `width` by `height` pixels, four bytes (red, green, blue, alpha) each, row by
/// row from the top.
pub struct Frame {
    pub width: u32,
    pub height: u32,
    pub rgba: Vec<u8>,
}

/// The contents of a `Frame`.
pub struct FrameView {
    pub width: u32,
    pub height: u32,
    pub rgba: Seq<u8>,
}

impl View for Frame {
    type V = FrameView;

    open spec fn view(&self) -> FrameView {
        FrameView { width: self.width, height: self.height, rgba: self.rgba@ }
    }
}

impl FrameView {
    /// The pixel data has exactly the size that the dimensions call for.
    pub open spec fn well_formed(self) -> bool {
        self.rgba.len() == self.width * self.height * 4
    }
}

/// Why a file does not hold a frame.
#[derive(Clone, Copy, Debug, PartialEq, Eq, Structural)]
pub enum FrameError {
    /// The file is shorter than the two dimensions.
    TooSmall,
    /// The pixel data is not as long as the dimensions call for.
    SizeMismatch,
}

/// The bytes of a frame file: width and height as little-endian 32-bit numbers, then the
/// pixels.
pub open spec fn raw_frame(f: FrameView) -> Seq<u8> {
    spec_u32_to_le_bytes(f.width) + spec_u32_to_le_bytes(f.height) + f.rgba
}

/// What a frame file holds.
pub open spec fn parse_raw_frame(data: Seq<u8>) -> Result<FrameView, FrameError> {
    if data.len() < 8 {
        Err(FrameError::TooSmall)
    } else {
        let f = FrameView {
            width: spec_u32_from_le_bytes(data.subrange(0, 4)),
            height: spec_u32_from_le_bytes(data.subrange(4, 8)),
            rgba: data.subrange(8, data.len() as int),
        };
        if f.well_formed() {
            Ok(f)
        } else {
            Err(FrameError::SizeMismatch)
        }
    }
}

/// The bytes to write to a frame file.
pub fn write_frame_raw(frame: &Frame) -> (r: Vec<u8>)
    ensures
        r@ == raw_frame(frame@),
{
    let mut buf = u32_to_le_bytes(frame.width);
    let mut height = u32_to_le_bytes(frame.height);
    buf.append(&mut height);
    append_range(&mut buf, frame.rgba.as_slice(), 0, frame.rgba.len());
    assert(frame.rgba@.subrange(0, frame.rgba@.len() as int) == frame.rgba@);
    buf
}

/// Reads the contents of a frame file back.
pub fn read_frame_raw(data: &[u8]) -> (r: Result<Frame, FrameError>)
    ensures
        match r {
            Ok(f) => parse_raw_frame(data@) == Ok::<FrameView, FrameError>(f@),
            Err(e) => parse_raw_frame(data@) == Err::<FrameView, FrameError>(e),
        },
{
    if data.len() < 8 {
        return Err(FrameError::TooSmall);
    }
    let width: u32 = u32_from_le_bytes(slice_subrange(data, 0, 4));
    let height: u32 = u32_from_le_bytes(slice_subrange(data, 4, 8));
    let mut rgba: Vec<u8> = Vec::new();
    append_range(&mut rgba, data, 8, data.len());
    assert(rgba@ == data@.subrange(8, data@.len() as int));
    assert(width * height * 4 <= u32::MAX * u32::MAX * 4) by (nonlinear_arith)
        requires
            0 <= width <= u32::MAX,
            0 <= height <= u32::MAX,
    ;
    assert(0 <= width * height <= u32::MAX * u32::MAX) by (nonlinear_arith)
        requires
            0 <= width <= u32::MAX,
            0 <= height <= u32::MAX,
    ;
    if rgba.len() as u128 != width as u128 * height as u128 * 4 {
        return Err(FrameError::SizeMismatch);
    }
    Ok(Frame { width, height, rgba })
}

/// Reading back what was written gives the frame that was written.
pub proof fn law_read_after_write(f: FrameView)
    requires
        f.well_formed(),
    ensures
        parse_raw_frame(raw_frame(f)) == Ok::<FrameView, FrameError>(f),
{
    vstd::bytes::lemma_auto_spec_u32_to_from_le_bytes();
    let data = raw_frame(f);
    assert(data.subrange(0, 4) =~= spec_u32_to_le_bytes(f.width));
    assert(data.subrange(4, 8) =~= spec_u32_to_le_bytes(f.height));
    assert(data.subrange(8, data.len() as int) =~= f.rgba);
}

/// A file that is read as a frame holds exactly the bytes that writing this frame gives.
pub proof fn law_write_after_read(data: Seq<u8>)
    ensures
        parse_raw_frame(data) matches Ok(f) ==> f.well_formed() && raw_frame(f) == data,
{
    vstd::bytes::lemma_auto_spec_u32_to_from_le_bytes();
    if let Ok(f) = parse_raw_frame(data) {
        assert(raw_frame(f) =~= data);
    }
}

/// Why the portal's answer does not lead to a file.
#[derive(Clone, Copy, Debug, PartialEq, Eq, Structural)]
pub enum PortalError {
    /// The address is not a URL.
    NotAUrl,
    /// The URL is not that of a local file.
    NotALocalFile,
}

/// The file that a URL leads to, by the bytes of its path.
pub uninterp spec fn file_of_url(uri: Seq<char>) -> Result<Seq<u8>, PortalError>;

/// Calls `url::Url::parse` on `uri` and `url::Url::to_file_path` on the URL. The result is
/// `NotAUrl` where the first fails, `NotALocalFile` where the second fails, and else the bytes
/// of the path on a Unix system; it depends on `uri` alone. Which text is a URL and how its path
/// is decoded is left to that crate.
#[verifier::external_body]
fn url_to_file_path(uri: &str) -> (r: Result<Vec<u8>, PortalError>)
    ensures
        match r {
            Ok(path) => file_of_url(uri@) == Ok::<Seq<u8>, PortalError>(path@),
            Err(e) => file_of_url(uri@) == Err::<Seq<u8>, PortalError>(e),
        },
{
    match url::Url::parse(uri) {
        Ok(url) => match url.to_file_path() {
            Ok(path) => Ok(path.into_os_string().into_encoded_bytes()),
            Err(()) => Err(PortalError::NotALocalFile),
        },
        Err(_) => Err(PortalError::NotAUrl),
    }
}

/// The path of the screenshot that the portal's answer names.
pub fn screenshot_path(uri: &str) -> (r: Result<Vec<u8>, PortalError>)
    ensures
        match r {
            Ok(path) => file_of_url(uri@) == Ok::<Seq<u8>, PortalError>(path@),
            Err(e) => file_of_url(uri@) == Err::<Seq<u8>, PortalError>(e),
        },
{
    url_to_file_path(uri)
}

/// A screenshot that cannot be decoded.
#[derive(Clone, Copy, Debug, PartialEq, Eq, Structural)]
pub struct DecodeError;

/// The image in a file with the given extension and contents, if it can be decoded.
pub uninterp spec fn decoded_image(extension: Seq<char>, data: Seq<u8>) -> Option<FrameView>;

/// Calls `image::ImageReader::decode` on `data`, in the format that
/// `image::ImageFormat::from_extension` gives, and `image::DynamicImage::to_rgba8` on the image.
/// The result depends on the arguments alone, and its pixel data has the size that its
/// dimensions call for. Which formats there are and how they are decoded is left to that crate.
#[verifier::external_body]
fn decode(extension: &str, data: &Vec<u8>) -> (r: Result<Frame, image::ImageError>)
    ensures
        match r {
            Ok(f) => f@.well_formed() && decoded_image(extension@, data@) == Some(f@),
            Err(_) => decoded_image(extension@, data@) is None,
        },
{
    let unknown = image::ImageError::Unsupported(image::error::ImageFormatHint::Unknown.into());
    let format = image::ImageFormat::from_extension(extension).ok_or(unknown)?;
    let reader = image::ImageReader::with_format(std::io::Cursor::new(data), format);
    let img = reader.decode()?.to_rgba8();
    Ok(Frame { width: img.width(), height: img.height(), rgba: img.into_raw() })
}

/// The frame in the portal's screenshot, a file with the given extension and contents.
pub fn capture_frame(extension: &str, data: &Vec<u8>) -> (r: Result<Frame, DecodeError>)
    ensures
        match r {
            Ok(f) => f@.well_formed() && decoded_image(extension@, data@) == Some(f@),
            Err(_) => decoded_image(extension@, data@) is None,
        },
{
    match decode(extension, data) {
        Ok(f) => Ok(f),
        Err(_) => Err(DecodeError),
    }
}

/// A frame file begins with the four bytes of the width and the four bytes of the height; after
/// them come the pixels, byte by byte.
pub proof fn law_frame_file_layout(f: FrameView, i: int)
    ensures
        raw_frame(f).len() == 8 + f.rgba.len(),
        raw_frame(f).subrange(0, 4) == spec_u32_to_le_bytes(f.width),
        raw_frame(f).subrange(4, 8) == spec_u32_to_le_bytes(f.height),
        0 <= i < f.rgba.len() ==> raw_frame(f)[8 + i] == f.rgba[i],
{
    vstd::bytes::lemma_auto_spec_u32_to_from_le_bytes();
    assert(raw_frame(f).subrange(0, 4) =~= spec_u32_to_le_bytes(f.width));
    assert(raw_frame(f).subrange(4, 8) =~= spec_u32_to_le_bytes(f.height));
}

/// A file of fewer than eight bytes is too small; of the others, exactly those hold a frame that
/// have four bytes for each pixel that their first eight bytes tell of.
pub proof fn law_frame_file_is_checked(data: Seq<u8>)
    ensures
        data.len() < 8 ==> parse_raw_frame(data) == Err::<FrameView, FrameError>(
            FrameError::TooSmall,
        ),
        data.len() >= 8 ==> {
            let w = spec_u32_from_le_bytes(data.subrange(0, 4));
            let h = spec_u32_from_le_bytes(data.subrange(4, 8));
            &&& data.len() - 8 == w * h * 4 ==> parse_raw_frame(data) is Ok
            &&& data.len() - 8 != w * h * 4 ==> parse_raw_frame(data) == Err::<
                FrameView,
                FrameError,
            >(FrameError::SizeMismatch)
        },
{
}

/// A frame has just four bytes for each pixel.
pub proof fn law_frame_has_four_bytes_per_pixel(f: FrameView)
    ensures
        f.well_formed() <==> f.rgba.len() == 4 * (f.width * f.height),
{
}

} // verus!
