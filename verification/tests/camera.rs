use iris::camera_nokhwa::access_error;
use iris::camera_nokhwa::frame_action;
use iris::camera_nokhwa::open_error;
use iris::camera_nokhwa::CaptureState;
use iris::camera_nokhwa::FrameAction;
use iris::camera_nokhwa::OpenStage;
use iris::camera_nokhwa::StartOutcome;
use iris::camera_test::uyvy_field_to_rgba;
use iris::camera_test::yuv_to_rgba;
use iris::camera_test::CameraTest;
use iris::camera_test::Field;

#[test]
fn access_has_to_be_granted() {
    assert_eq!(access_error(Some(true)), None);
    assert!(access_error(Some(false)).unwrap().starts_with("macOS denied camera access."));
    assert_eq!(
        access_error(None).unwrap(),
        "timed out waiting for the macOS camera permission prompt"
    );
}

#[test]
fn failures_to_open_say_what_follows() {
    assert_eq!(
        open_error(OpenStage::Open, "busy"),
        "open failed: busy \u{2014} falling back to black source"
    );
    assert_eq!(
        open_error(OpenStage::Stream, "busy"),
        "open_stream failed: busy \u{2014} falling back to black source"
    );
}

#[test]
fn short_frames_are_skipped() {
    assert_eq!(frame_action(None, 640, 480), FrameAction::Retry(33));
    assert_eq!(frame_action(Some(640 * 480 * 2 - 1), 640, 480), FrameAction::Skip);
    assert_eq!(frame_action(Some(640 * 480 * 2), 640, 480), FrameAction::Store);
    assert_eq!(frame_action(Some(100), u32::MAX, u32::MAX), FrameAction::Skip);
}

#[test]
fn a_capture_shows_why_it_does_not_run() {
    let mut s = CaptureState::new();
    assert!(!s.started(StartOutcome::Denied));
    assert!(s.error().as_ref().unwrap().contains("System Settings"));
    assert!(!s.started(StartOutcome::TimedOut));
    assert!(s.error().as_ref().unwrap().starts_with("timed out"));
    assert!(!s.started(StartOutcome::OpenFailed("x".to_string())));
    assert_eq!(
        s.error().as_ref().unwrap(),
        "open failed: x \u{2014} falling back to black source"
    );
    assert!(!s.started(StartOutcome::StreamFailed("x".to_string())));
    assert!(s.started(StartOutcome::Streaming(640, 480)));
    assert!(s.error().is_none());
    assert_eq!(s.capture_res(), Some((640, 480)));
    s.store(vec![1], vec![2]);
    assert_eq!(s.frame_count(), 1);
}

#[test]
fn pixels_follow_the_video_standard() {
    assert_eq!(yuv_to_rgba(16, 128, 128), [0, 0, 0, 255]);
    assert_eq!(yuv_to_rgba(235, 128, 128), [255, 255, 255, 255]);
    assert_eq!(yuv_to_rgba(81, 90, 240), [255, 0, 0, 255]);
    assert_eq!(yuv_to_rgba(0, 0, 0), [0, 135, 0, 255]);
    for y in 0..=255u8 {
        let [r, g, b, _] = yuv_to_rgba(y, 128, 128);
        assert!(r == g && g == b);
    }
}

#[test]
fn fields_become_pictures() {
    let field = Field { width: 2, height: 2, pixels: vec![128, 16, 128, 235, 90, 81, 240, 81] };
    let rgba = uyvy_field_to_rgba(&field);
    assert_eq!(rgba.len(), 16);
    assert_eq!(&rgba[..4], &[0, 0, 0, 255]);
    assert_eq!(&rgba[4..8], &[255, 255, 255, 255]);
    assert_eq!(&rgba[8..12], &[255, 0, 0, 255]);
}

#[test]
fn missing_pixels_stay_empty() {
    let short = Field { width: 2, height: 2, pixels: vec![128, 16, 128, 235, 1] };
    assert_eq!(&uyvy_field_to_rgba(&short)[8..], &[0; 8]);
    let odd = Field { width: 3, height: 1, pixels: vec![128, 16, 128, 235, 128, 16] };
    assert_eq!(&uyvy_field_to_rgba(&odd)[8..], &[0; 4]);
    assert!(uyvy_field_to_rgba(&Field { width: 0, height: 5, pixels: vec![] }).is_empty());
}

#[test]
fn a_frame_is_taken_once() {
    let mut t = CameraTest::start();
    assert_eq!(t.status(), "opening camera\u{2026}");
    let mut last = 0;
    assert!(t.take_new_frame(&mut last).is_none());
    t.on_open_error("no device".to_string());
    assert_eq!(t.error(), Some("no device".to_string()));
    let field = Field { width: 2, height: 1, pixels: vec![128, 16, 128, 235] };
    t.on_field(&field, "1 frame".to_string());
    assert_eq!(t.error(), None);
    assert_eq!(t.status(), "1 frame");
    assert_eq!(
        t.take_new_frame(&mut last),
        Some((2, 1, vec![0, 0, 0, 255, 255, 255, 255, 255]))
    );
    assert!(t.take_new_frame(&mut last).is_none());
}
