use rayshot::capture::{
    capture_frame, read_frame_raw, screenshot_path, write_frame_raw, DecodeError, Frame,
    FrameError, PortalError,
};
use rayshot::export::to_png_bytes;

fn sample() -> Frame {
    Frame { width: 2, height: 1, rgba: vec![1, 2, 3, 4, 5, 6, 7, 8] }
}

#[test]
fn frame_file_starts_with_little_endian_dimensions() {
    let bytes = write_frame_raw(&sample());
    assert_eq!(bytes, vec![2, 0, 0, 0, 1, 0, 0, 0, 1, 2, 3, 4, 5, 6, 7, 8]);
}

#[test]
fn frame_file_reads_back() {
    let bytes = write_frame_raw(&sample());
    let f = read_frame_raw(&bytes).unwrap();
    assert_eq!((f.width, f.height), (2, 1));
    assert_eq!(f.rgba, sample().rgba);
    assert_eq!(write_frame_raw(&f), bytes);
}

#[test]
fn empty_frame_reads_back() {
    let f = Frame { width: 0, height: 7, rgba: vec![] };
    let g = read_frame_raw(&write_frame_raw(&f)).unwrap();
    assert_eq!((g.width, g.height, g.rgba.len()), (0, 7, 0));
}

#[test]
fn short_file_is_too_small() {
    assert_eq!(read_frame_raw(&[1, 0, 0, 0, 1, 0, 0]).err(), Some(FrameError::TooSmall));
    assert_eq!(read_frame_raw(&[]).err(), Some(FrameError::TooSmall));
}

#[test]
fn wrong_length_is_a_size_mismatch() {
    let mut bytes = write_frame_raw(&sample());
    bytes.push(0);
    assert_eq!(read_frame_raw(&bytes).err(), Some(FrameError::SizeMismatch));
    bytes.truncate(15);
    assert_eq!(read_frame_raw(&bytes).err(), Some(FrameError::SizeMismatch));
    let huge = [255u8; 8];
    assert_eq!(read_frame_raw(&huge).err(), Some(FrameError::SizeMismatch));
}

#[test]
fn portal_address_leads_to_a_path() {
    let path = screenshot_path("file:///tmp/Screen%20shot%C3%A9.png").unwrap();
    assert_eq!(path, "/tmp/Screen shot\u{e9}.png".as_bytes().to_vec());
    assert_eq!(screenshot_path("file://localhost/a/b").unwrap(), b"/a/b".to_vec());
}

#[test]
fn portal_address_must_be_a_local_file() {
    assert_eq!(screenshot_path("not a url").err(), Some(PortalError::NotAUrl));
    assert_eq!(screenshot_path("").err(), Some(PortalError::NotAUrl));
    assert_eq!(screenshot_path("file://elsewhere/a.png").err(), Some(PortalError::NotALocalFile));
    assert_eq!(screenshot_path("mailto:a@b").err(), Some(PortalError::NotALocalFile));
}

#[test]
fn screenshot_decodes_to_its_pixels() {
    let png = to_png_bytes(&sample()).unwrap();
    let f = capture_frame("png", &png).unwrap();
    assert_eq!((f.width, f.height), (2, 1));
    assert_eq!(f.rgba, sample().rgba);
    assert!(capture_frame("PNG", &png).is_ok());
}

#[test]
fn screenshot_without_alpha_becomes_opaque() {
    let img = image::RgbImage::from_raw(1, 1, vec![10, 20, 30]).unwrap();
    let mut buf = std::io::Cursor::new(Vec::new());
    img.write_to(&mut buf, image::ImageFormat::Png).unwrap();
    let f = capture_frame("png", &buf.into_inner()).unwrap();
    assert_eq!(f.rgba, vec![10, 20, 30, 255]);
}

#[test]
fn unreadable_screenshot_is_refused() {
    let png = to_png_bytes(&sample()).unwrap();
    assert_eq!(capture_frame("png", &vec![1, 2, 3]).err(), Some(DecodeError));
    assert_eq!(capture_frame("txt", &png).err(), Some(DecodeError));
    assert_eq!(capture_frame("", &png).err(), Some(DecodeError));
}
