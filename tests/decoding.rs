use mtfg::viewport::Viewport;
use mtfg::dimensions::{get_dimension_from_video_filter, parse_video_dimensions, Dimensions};
use mtfg::fanout::{stop_frame_count, FrameGate, HubAction, HubError};
use mtfg::geometry::BoundingBox;
use mtfg::rate::FrameRate;
use mtfg::timestamp::millisec_to_timestamp;
use mtfg::worker::{TrackerWorker, WorkerAction, WorkerEnd, WorkerEvent};

#[test]
fn timestamp_formatting() {
    assert_eq!(millisec_to_timestamp(0), "00:00:00.000");
    assert_eq!(millisec_to_timestamp(3_723_004), "01:02:03.004");
    assert_eq!(millisec_to_timestamp(86_400_000 + 59_999), "00:00:59.999");
}

#[test]
fn frame_rate_parsing() {
    assert_eq!(FrameRate::parse("30000/1001"), Some(FrameRate::new(30000, 1001)));
    assert_eq!(FrameRate::parse("50/2"), Some(FrameRate::new(25, 1)));
    assert_eq!(FrameRate::parse("24"), Some(FrameRate::new(24, 1)));
    assert_eq!(FrameRate::parse("0/0"), Some(FrameRate::new(30, 1)));
    assert_eq!(FrameRate::parse("-25/1"), Some(FrameRate::new(30, 1)));
    assert_eq!(FrameRate::parse("abc"), None);
    assert_eq!(FrameRate::from_parts(Some((false, 0, 1))), FrameRate::new(30, 1));
}

#[test]
fn probe_resolution_parsing() {
    assert_eq!(parse_video_dimensions("1920x1080"), Some(Dimensions::new(1920, 1080)));
    assert_eq!(parse_video_dimensions("640x480\n"), Some(Dimensions::new(640, 480)));
    assert_eq!(parse_video_dimensions("1x2x3"), Some(Dimensions::new(1, 2)));
    assert_eq!(parse_video_dimensions("none"), None);
    assert_eq!(parse_video_dimensions("99999999999x10"), None);
}

#[test]
fn video_filter_size_parsing() {
    let f = "v360=input=he:in_stereo=sbs:pitch=-35:yaw=0:roll=0:output=flat:d_fov=80:w=800:h=600";
    assert_eq!(get_dimension_from_video_filter(f), Some(Dimensions::new(800, 600)));
    assert_eq!(get_dimension_from_video_filter("w=1:h=2,w=3:h=4"), Some(Dimensions::new(3, 4)));
    assert_eq!(get_dimension_from_video_filter("scale=640:360"), Some(Dimensions::new(640, 360)));
    assert_eq!(get_dimension_from_video_filter("scale=640:360,w=10:h=20"), Some(Dimensions::new(10, 20)));
    assert_eq!(get_dimension_from_video_filter("crop=100:100"), None);
}

#[test]
fn hub_delivers_every_step_th_frame() {
    let mut g = FrameGate::new(2, 0);
    let got: Vec<HubAction> = (0..5).map(|_| g.on_frame()).collect();
    assert_eq!(got, vec![HubAction::Deliver, HubAction::Skip, HubAction::Deliver, HubAction::Skip, HubAction::Deliver]);
    assert_eq!(g.delivered, 3);
}

#[test]
fn hub_stops_at_end_frame_and_on_closed_consumer() {
    let mut g = FrameGate::new(1, 2);
    assert_eq!(g.on_frame(), HubAction::Deliver);
    assert_eq!(g.on_frame(), HubAction::Deliver);
    assert_eq!(g.on_frame(), HubAction::Finish);
    let mut g = FrameGate::new(1, 0);
    assert_eq!(g.on_frame(), HubAction::Deliver);
    assert_eq!(g.on_consumer_closed(), HubError::ConsumerClosed);
    assert_eq!(g.on_frame(), HubAction::Finish);
}

#[test]
fn hub_frame_limit_from_times() {
    let fps = FrameRate::new(30, 1);
    assert_eq!(stop_frame_count(1000, Some(3000), fps), 60);
    assert_eq!(stop_frame_count(3000, Some(1000), fps), 0);
    assert_eq!(stop_frame_count(1000, None, fps), 0);
    assert_eq!(stop_frame_count(0, Some(1001), FrameRate::new(30000, 1001)), 30);
}

#[test]
fn worker_emits_then_stops_on_lost_tracking() {
    let b = BoundingBox::new(1, 2, 3, 4);
    let mut w = TrackerWorker::new();
    assert_eq!(w.step(WorkerEvent::Initialized { ok: true }), WorkerAction::NextFrame);
    assert_eq!(w.step(WorkerEvent::Updated { result: Some(b) }), WorkerAction::Emit { bounding_box: b });
    assert_eq!(w.step(WorkerEvent::Sent { ok: true }), WorkerAction::NextFrame);
    assert_eq!(w.step(WorkerEvent::Updated { result: None }), WorkerAction::Stop { reason: WorkerEnd::TrackingLost });
    assert_eq!(w.emitted, 1);
}

#[test]
fn worker_failure_paths() {
    let mut w = TrackerWorker::new();
    assert_eq!(w.step(WorkerEvent::FramesClosed), WorkerAction::Stop { reason: WorkerEnd::InitFrameMissing });
    let mut w = TrackerWorker::new();
    assert_eq!(w.step(WorkerEvent::Initialized { ok: false }), WorkerAction::Stop { reason: WorkerEnd::SetupFailed });
    let mut w = TrackerWorker::new();
    w.step(WorkerEvent::Initialized { ok: true });
    w.step(WorkerEvent::Updated { result: Some(BoundingBox::new(0, 0, 1, 1)) });
    assert_eq!(w.step(WorkerEvent::Sent { ok: false }), WorkerAction::Stop { reason: WorkerEnd::ResultQueueClosed });
    let mut w = TrackerWorker::new();
    w.step(WorkerEvent::Initialized { ok: true });
    assert_eq!(w.step(WorkerEvent::FramesClosed), WorkerAction::Stop { reason: WorkerEnd::FramesEnded });
}

#[test]
fn viewport_keys() {
    let mut v = Viewport::new();
    assert_eq!((v.pitch, v.yaw, v.fov), (-25, 0, 90));
    assert!(!v.on_key('w'));
    assert!(!v.on_key('d'));
    assert!(!v.on_key('+'));
    assert!(!v.on_key('x'));
    assert_eq!((v.pitch, v.yaw, v.fov), (-20, 5, 85));
    assert!(!v.on_key('s'));
    assert!(!v.on_key('a'));
    assert!(!v.on_key('-'));
    assert_eq!((v.pitch, v.yaw, v.fov), (-25, 0, 90));
    assert!(v.on_key('q'));
    assert!(v.on_key(' '));
    assert!(v.on_key('\n'));
    let mut edge = Viewport { pitch: 125, yaw: -126, fov: 3 };
    edge.on_key('w');
    edge.on_key('a');
    edge.on_key('+');
    assert_eq!((edge.pitch, edge.yaw, edge.fov), (125, -126, 3));
}
