use rayshot::capture::Frame;
use rayshot::screencast::{
    announces_raw_video, capture_once, composite, restore_token, stream_infos, to_rgba, Attempt, Buffer,
    CapturePhase, CaptureStep, Captured, ScreencastError, ScreencastSession, StreamInfo,
    StreamState, VideoFormat, COPY_INTERVAL, GRAB_TIMEOUT, READY_TIMEOUT,
};

fn picture(w: u32, h: u32, pos: (i32, i32), v: u8) -> Captured {
    Captured { pixels: vec![v; (w * h * 4) as usize], w, h, pos }
}

fn info(pos: (i32, i32)) -> StreamInfo {
    StreamInfo { node_id: 1, pos }
}

fn buffer(w: u32, h: u32, stride: i32, format: VideoFormat, data: &[u8]) -> Buffer<'_> {
    Buffer { w, h, stride, format, data: Some(data) }
}

fn frame_of(a: Attempt) -> Frame {
    match a {
        Attempt::Done(Ok(f)) => f,
        _ => panic!("no frame"),
    }
}

#[test]
fn empty_desktop_is_one_transparent_pixel() {
    let f = composite(&[]).unwrap();
    assert_eq!((f.width, f.height), (1, 1));
    assert_eq!(f.rgba, vec![0, 0, 0, 0]);
}

#[test]
fn pictures_are_placed_by_position() {
    let f = composite(&[picture(1, 1, (-1, 0), 5), picture(2, 1, (0, 1), 7)]).unwrap();
    assert_eq!((f.width, f.height), (3, 2));
    let first: Vec<u8> = f.rgba.iter().step_by(4).cloned().collect();
    assert_eq!(first, vec![5, 0, 0, 0, 7, 7]);
}

#[test]
fn later_pictures_cover_earlier_ones() {
    let f = composite(&[picture(2, 1, (0, 0), 1), picture(1, 1, (1, 0), 2)]).unwrap();
    assert_eq!(f.rgba, vec![1, 1, 1, 1, 2, 2, 2, 2]);
    let f = composite(&[picture(1, 1, (1, 0), 2), picture(2, 1, (0, 0), 1)]).unwrap();
    assert_eq!(f.rgba, vec![1; 8]);
}

#[test]
fn a_blank_picture_is_an_error() {
    let r = composite(&[picture(2, 1, (0, 0), 1), picture(0, 3, (5, 5), 2)]);
    assert_eq!(r.err(), Some(ScreencastError::EmptyFrame));
}

#[test]
fn formats_are_converted() {
    let src = [1, 2, 3, 4];
    assert_eq!(to_rgba(&src, 1, 1, 4, VideoFormat::Rgba), vec![1, 2, 3, 4]);
    assert_eq!(to_rgba(&src, 1, 1, 4, VideoFormat::Rgbx), vec![1, 2, 3, 255]);
    assert_eq!(to_rgba(&src, 1, 1, 4, VideoFormat::Bgra), vec![3, 2, 1, 4]);
    assert_eq!(to_rgba(&src, 1, 1, 4, VideoFormat::Bgrx), vec![3, 2, 1, 255]);
    assert_eq!(to_rgba(&src, 1, 1, 4, VideoFormat::Other), vec![1, 2, 3, 255]);
}

#[test]
fn rows_start_at_the_stride() {
    let src = [1, 1, 1, 1, 9, 9, 2, 2, 2, 2, 9, 9];
    assert_eq!(to_rgba(&src, 1, 2, 6, VideoFormat::Rgba), vec![1, 1, 1, 1, 2, 2, 2, 2]);
}

#[test]
fn missing_bytes_stay_zero() {
    let src = [1, 1, 1, 1, 2, 2, 2];
    assert_eq!(to_rgba(&src, 2, 2, 8, VideoFormat::Rgba), [vec![1; 4], vec![0; 12]].concat());
    assert_eq!(to_rgba(&[], 1, 1, 4, VideoFormat::Bgrx), vec![0; 4]);
}

#[test]
fn tight_rgba_is_kept() {
    let src: Vec<u8> = (0..24).collect();
    assert_eq!(to_rgba(&src, 3, 2, 12, VideoFormat::Rgba), src);
}

#[test]
fn streams_without_position_stand_at_the_origin() {
    let infos = stream_infos(&vec![(7, None), (8, Some((3, -4)))]).unwrap();
    let seen: Vec<(u32, (i32, i32))> = infos.iter().map(|i| (i.node_id, i.pos)).collect();
    assert_eq!(seen, vec![(7, (0, 0)), (8, (3, -4))]);
    assert_eq!(stream_infos(&vec![]).err(), Some(ScreencastError::NoStreams));
}

#[test]
fn blank_tokens_are_ignored() {
    assert_eq!(restore_token(" abc\n"), Some("abc".to_string()));
    assert_eq!(restore_token(" \n"), None);
    assert_eq!(restore_token(""), None);
}

#[test]
fn only_raw_video_formats_are_taken() {
    assert!(announces_raw_video(true, Some((true, true))));
    assert!(!announces_raw_video(false, Some((true, true))));
    assert!(!announces_raw_video(true, Some((true, false))));
    assert!(!announces_raw_video(true, Some((false, true))));
    assert!(!announces_raw_video(true, None));
}

#[test]
fn a_new_session_waits() {
    let s = ScreencastSession::start(&vec![info((0, 0))]);
    assert!(!s.is_healthy());
    assert_eq!(s.streams(), 1);
    assert!(matches!(s.grab(0), Attempt::Again));
    assert!(matches!(s.grab(GRAB_TIMEOUT), Attempt::Again));
    assert!(matches!(
        s.grab(GRAB_TIMEOUT + 1),
        Attempt::Done(Err(ScreencastError::TimedOut))
    ));
    assert_eq!(s.wait_ready(5, 5), None);
    assert_eq!(s.wait_ready(6, 5), Some(false));
}

#[test]
fn health_needs_every_stream() {
    let mut s = ScreencastSession::start(&vec![info((0, 0)), info((1, 0))]);
    s.state_changed(0, StreamState::Streaming);
    assert!(!s.is_healthy());
    s.state_changed(1, StreamState::Streaming);
    s.state_changed(2, StreamState::Error);
    assert!(s.is_healthy());
    s.state_changed(0, StreamState::Paused);
    assert!(!s.is_healthy());
    assert!(!ScreencastSession::start(&vec![]).is_healthy());
}

#[test]
fn delivered_pictures_are_grabbed() {
    let mut s = ScreencastSession::start(&vec![info((0, 0)), info((1, 0))]);
    assert!(s.process(0, buffer(1, 1, 4, VideoFormat::Rgba, &[1, 2, 3, 4]), COPY_INTERVAL));
    assert!(matches!(s.grab(0), Attempt::Again));
    assert!(s.process(1, buffer(1, 1, 4, VideoFormat::Bgrx, &[5, 6, 7, 8]), COPY_INTERVAL));
    assert!(s.fits_machine());
    assert_eq!(s.wait_ready(u128::MAX, 0), Some(true));
    let f = frame_of(s.grab(u128::MAX));
    assert_eq!((f.width, f.height), (2, 1));
    assert_eq!(f.rgba, vec![1, 2, 3, 4, 7, 6, 5, 255]);
}

#[test]
fn a_later_picture_replaces_the_earlier_one() {
    let mut s = ScreencastSession::start(&vec![info((0, 0))]);
    assert!(s.process(0, buffer(1, 1, 4, VideoFormat::Rgba, &[1; 4]), COPY_INTERVAL));
    assert!(s.process(0, buffer(2, 1, 8, VideoFormat::Rgba, &[2; 8]), COPY_INTERVAL));
    let f = frame_of(s.grab(0));
    assert_eq!((f.width, f.height, f.rgba), (2, 1, vec![2; 8]));
}

#[test]
fn useless_buffers_are_not_taken() {
    let mut s = ScreencastSession::start(&vec![info((0, 0))]);
    let data = [1u8; 4];
    assert!(!s.process(0, buffer(1, 1, 4, VideoFormat::Rgba, &data), COPY_INTERVAL - 1));
    assert!(!s.process(0, buffer(0, 1, 4, VideoFormat::Rgba, &data), COPY_INTERVAL));
    assert!(!s.process(0, buffer(1, 0, 4, VideoFormat::Rgba, &data), COPY_INTERVAL));
    assert!(!s.process(0, buffer(1, 1, 4, VideoFormat::Rgba, &[]), COPY_INTERVAL));
    let none = Buffer { w: 1, h: 1, stride: 4, format: VideoFormat::Rgba, data: None };
    assert!(!s.process(0, none, COPY_INTERVAL));
    assert!(matches!(s.grab(0), Attempt::Again));
}

#[test]
fn stride_is_at_least_a_row() {
    let mut s = ScreencastSession::start(&vec![info((0, 0))]);
    let data = [1, 1, 1, 1, 2, 2, 2, 2, 9, 9];
    assert!(s.process(0, buffer(1, 2, -3, VideoFormat::Rgba, &data), COPY_INTERVAL));
    assert_eq!(frame_of(s.grab(0)).rgba, vec![1, 1, 1, 1, 2, 2, 2, 2]);
    assert!(s.process(0, buffer(1, 2, 6, VideoFormat::Rgba, &data), COPY_INTERVAL));
    assert_eq!(frame_of(s.grab(0)).rgba, vec![1, 1, 1, 1, 2, 2, 9, 9]);
}

#[test]
fn capture_waits_and_grabs() {
    let mut s = ScreencastSession::start(&vec![info((0, 0))]);
    let waiting = CapturePhase::Waiting;
    assert!(matches!(capture_once(&s, waiting, READY_TIMEOUT), CaptureStep::Sleep));
    assert!(matches!(
        capture_once(&s, waiting, READY_TIMEOUT + 1),
        CaptureStep::Done(Err(ScreencastError::TimedOut))
    ));
    assert!(matches!(capture_once(&s, CapturePhase::Grabbing, 0), CaptureStep::Sleep));
    assert!(s.process(0, buffer(1, 1, 4, VideoFormat::Rgba, &[1; 4]), COPY_INTERVAL));
    assert!(matches!(capture_once(&s, waiting, 0), CaptureStep::Grab));
    assert!(matches!(
        capture_once(&s, CapturePhase::Grabbing, 0),
        CaptureStep::Done(Ok(f)) if f.rgba == vec![1; 4]
    ));
}

#[test]
fn far_apart_monitors_do_not_fit() {
    let mut s = ScreencastSession::start(&vec![info((i32::MIN, 0)), info((i32::MAX - 1, 0))]);
    assert!(s.fits_machine());
    for i in 0..2 {
        assert!(s.process(i, buffer(1, 1, 4, VideoFormat::Rgba, &[1; 4]), COPY_INTERVAL));
    }
    assert!(!s.fits_machine());
}

#[test]
fn timeouts_in_nanoseconds() {
    assert_eq!(COPY_INTERVAL, std::time::Duration::from_millis(66).as_nanos());
    assert_eq!(GRAB_TIMEOUT, std::time::Duration::from_millis(700).as_nanos());
    assert_eq!(READY_TIMEOUT, std::time::Duration::from_secs(5).as_nanos());
}
