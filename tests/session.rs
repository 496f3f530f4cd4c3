use cvm_rs::image::{bytes_to_pixels, pixels_to_bytes, Subsampling};
use cvm_rs::session::{
    CaptureKind, ControlAction, EncodedRect, ProtocolEvent, RawRect, Session, SessionState, TransportInput,
    VncThreadMessageInput, VncThreadMessageOutput,
};
use cvm_rs::types::{Point, Rect, Size};

fn connected(width: u32, height: u32) -> Session {
    let mut s = Session::new();
    assert!(s.begin_connect());
    assert!(matches!(s.connect_finished(true), Some(VncThreadMessageOutput::Connect)));
    let ev = s.handle_event(ProtocolEvent::SetResolution(Size { width, height }));
    assert!(matches!(ev, Some(VncThreadMessageOutput::FramebufferResized(sz)) if sz == Size { width, height }));
    s
}

fn raw(x: u32, y: u32, width: u32, height: u32, pixel: u32) -> RawRect {
    let px = vec![pixel; (width * height) as usize];
    RawRect { rect: Rect { x, y, width, height }, data: pixels_to_bytes(&px) }
}

#[test]
fn connect_failure_emits_only_disconnect() {
    let mut s = Session::new();
    assert_eq!(s.state(), SessionState::Disconnected);
    assert!(s.begin_connect());
    assert!(!s.begin_connect());
    assert!(matches!(s.connect_finished(false), Some(VncThreadMessageOutput::Disconnect)));
    assert_eq!(s.state(), SessionState::Disconnected);
    assert!(s.close().is_none());
    assert!(s.connect_finished(true).is_none());
}

#[test]
fn disconnect_mid_loop_emits_one_disconnect() {
    let mut s = connected(8, 8);
    let mut events: Vec<VncThreadMessageOutput> = Vec::new();
    assert!(s.handle_event(ProtocolEvent::RawImage(vec![raw(0, 0, 2, 2, 1)])).is_none());
    assert!(matches!(s.handle_control(VncThreadMessageInput::Disconnect), ControlAction::Close));
    assert_eq!(s.state(), SessionState::Closing);
    // the loop has been left: nothing else is acted on
    assert!(s.handle_event(ProtocolEvent::RawImage(vec![raw(0, 0, 1, 1, 2)])).is_none());
    assert!(matches!(s.handle_control(VncThreadMessageInput::FullScreen), ControlAction::Nothing));
    assert!(s.idle().is_empty());
    events.extend(s.close());
    events.extend(s.close());
    events.extend(s.finish_update(vec![]));
    events.extend(s.capture_finished(CaptureKind::FullScreen, Some(vec![1])));
    events.extend(s.handle_event(ProtocolEvent::SetResolution(Size { width: 2, height: 2 })));
    assert_eq!(events.len(), 1);
    assert!(matches!(events[0], VncThreadMessageOutput::Disconnect));
    assert_eq!(s.state(), SessionState::Disconnected);
}

#[test]
fn two_full_frame_requests_each_answered_once() {
    let mut s = connected(4, 2);
    let mut events: Vec<VncThreadMessageOutput> = Vec::new();
    let a = s.handle_control(VncThreadMessageInput::FullScreen);
    let b = s.handle_control(VncThreadMessageInput::FullScreen);
    s.handle_event(ProtocolEvent::RawImage(vec![raw(1, 0, 2, 2, 0x00ABCDEF)]));
    let jobs = s.idle();
    assert_eq!(jobs.len(), 1);
    let done = vec![EncodedRect { rect: jobs[0].rect, result: Some(vec![9, 9]) }];
    events.extend(s.finish_update(done));
    for action in [a, b] {
        match action {
            ControlAction::Capture(CaptureKind::FullScreen, job) => {
                assert_eq!((job.width, job.height), (4, 2));
                assert_eq!(job.pixels, vec![0u8; 32]);
                events.extend(s.capture_finished(CaptureKind::FullScreen, Some(vec![0xFF, 0xD8])));
            }
            _ => panic!("expected a full-frame capture"),
        }
    }
    let full = events.iter().filter(|e| matches!(e, VncThreadMessageOutput::FullScreenProcessed(d) if d == &vec![0xFF, 0xD8])).count();
    let updates = events.iter().filter(|e| matches!(e, VncThreadMessageOutput::FramebufferUpdate(_))).count();
    assert_eq!(full, 2);
    assert_eq!(updates, 1);
}

#[test]
fn update_batches_pending_rects() {
    let mut s = connected(10, 10);
    s.handle_event(ProtocolEvent::RawImage(vec![raw(1, 1, 2, 2, 0x11), raw(5, 6, 1, 1, 0x22)]));
    let jobs = s.idle();
    assert_eq!(jobs.len(), 1);
    let r = jobs[0].rect;
    assert_eq!(r, Rect { x: 1, y: 1, width: 5, height: 6 });
    let job = &jobs[0].job;
    assert_eq!((job.width, job.height, job.quality, job.subsampling), (5, 6, 35, Subsampling::S420));
    let px = bytes_to_pixels(&job.pixels);
    assert_eq!(px.len(), 30);
    assert_eq!(px[0], 0xFF000011);
    assert_eq!(px[4 + 5 * 5], 0xFF000022);
    assert_eq!(px[2], 0);
    assert!(s.idle().is_empty());
}

#[test]
fn failed_encodes_are_dropped_from_update() {
    let s = connected(10, 10);
    let a = Rect { x: 0, y: 0, width: 1, height: 1 };
    let b = Rect { x: 1, y: 1, width: 1, height: 1 };
    let c = Rect { x: 2, y: 2, width: 1, height: 1 };
    let done = vec![
        EncodedRect { rect: a, result: Some(vec![1]) },
        EncodedRect { rect: b, result: None },
        EncodedRect { rect: c, result: Some(vec![3]) },
    ];
    match s.finish_update(done) {
        Some(VncThreadMessageOutput::FramebufferUpdate(v)) => {
            assert_eq!(v.len(), 2);
            assert_eq!((v[0].rect, v[0].data.clone()), (a, vec![1]));
            assert_eq!((v[1].rect, v[1].data.clone()), (c, vec![3]));
        }
        _ => panic!("expected an update"),
    }
    assert!(s.capture_finished(CaptureKind::Thumbnail, None).is_none());
}

#[test]
fn out_of_bounds_raw_rect_is_fatal() {
    let mut s = connected(4, 4);
    let ev = s.handle_event(ProtocolEvent::RawImage(vec![raw(0, 0, 1, 1, 5), raw(3, 3, 2, 2, 6), raw(1, 1, 1, 1, 7)]));
    assert!(ev.is_none());
    assert_eq!(s.state(), SessionState::Closing);
    assert_eq!(s.surface().get_buffer()[0], 0xFF000005);
    assert_eq!(s.surface().get_buffer()[5], 0);
    // short pixel data is refused too
    let mut t = connected(4, 4);
    let short = RawRect { rect: Rect { x: 0, y: 0, width: 2, height: 2 }, data: vec![0; 15] };
    t.handle_event(ProtocolEvent::RawImage(vec![short]));
    assert_eq!(t.state(), SessionState::Closing);
}

#[test]
fn control_messages() {
    let mut s = connected(2, 2);
    assert!(matches!(
        s.handle_control(VncThreadMessageInput::KeyEvent { keysym: 0x61, pressed: true }),
        ControlAction::Send(TransportInput::Key { keysym: 0x61, down: true })
    ));
    assert!(matches!(
        s.handle_control(VncThreadMessageInput::MouseEvent { pt: Point { x: 70000, y: 12 }, buttons: 1 }),
        ControlAction::Send(TransportInput::Pointer { x: 4464, y: 12, buttons: 1 })
    ));
    assert!(matches!(s.handle_control(VncThreadMessageInput::SetJpegQuality(80)), ControlAction::Nothing));
    assert_eq!(s.quality(), 80);
    s.handle_control(VncThreadMessageInput::SetJpegQuality(0));
    assert_eq!(s.quality(), 1);
    s.handle_control(VncThreadMessageInput::SetJpegQuality(500));
    assert_eq!(s.quality(), 100);
    match s.handle_control(VncThreadMessageInput::FullScreen) {
        ControlAction::Capture(CaptureKind::FullScreen, job) => assert_eq!(job.quality, 100),
        _ => panic!("expected a capture"),
    }
    s.control_closed();
    assert_eq!(s.state(), SessionState::Closing);
    assert!(matches!(s.close(), Some(VncThreadMessageOutput::Disconnect)));
}

#[test]
fn thumbnail_capture() {
    let mut s = connected(16, 12);
    s.handle_event(ProtocolEvent::RawImage(vec![raw(0, 0, 16, 12, 0x00102030)]));
    match s.handle_control(VncThreadMessageInput::Thumbnail) {
        ControlAction::Capture(CaptureKind::Thumbnail, job) => {
            assert_eq!((job.width, job.height), (400, 300));
            assert_eq!(job.pixels.len(), 400 * 300 * 4);
            let px = bytes_to_pixels(&job.pixels);
            assert!(px.iter().all(|p| {
                let b = p.to_le_bytes();
                (b[0] as i32 - 0x30).abs() <= 1 && (b[1] as i32 - 0x20).abs() <= 1 && (b[2] as i32 - 0x10).abs() <= 1
            }));
        }
        _ => panic!("expected a thumbnail capture"),
    }
    let mut empty = Session::new();
    empty.begin_connect();
    empty.connect_finished(true);
    assert!(matches!(empty.handle_control(VncThreadMessageInput::Thumbnail), ControlAction::Nothing));
}

#[test]
fn transport_failure_closes() {
    let mut s = connected(1, 1);
    s.transport_failed();
    assert_eq!(s.state(), SessionState::Closing);
    assert!(matches!(s.close(), Some(VncThreadMessageOutput::Disconnect)));
    assert!(s.close().is_none());
}

#[test]
fn connecting_session_delivers_nothing() {
    let mut s = Session::new();
    s.begin_connect();
    let done = vec![EncodedRect { rect: Rect { x: 0, y: 0, width: 1, height: 1 }, result: Some(vec![1]) }];
    assert!(s.finish_update(done).is_none());
    assert!(s.capture_finished(CaptureKind::FullScreen, Some(vec![1])).is_none());
    assert!(s.connect_finished(true).is_some());
    s.handle_control(VncThreadMessageInput::Disconnect);
    assert_eq!(s.state(), SessionState::Closing);
    // late results while closing are still delivered
    assert!(matches!(
        s.capture_finished(CaptureKind::Thumbnail, Some(vec![2])),
        Some(VncThreadMessageOutput::ThumbnailProcessed(d)) if d == vec![2]
    ));
}
