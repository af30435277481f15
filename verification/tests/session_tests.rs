use capture_pipeline::Platform;
use capture_pipeline::RecordingOptions;
use capture_pipeline::SessionController;
use capture_pipeline::StartError;
use capture_pipeline::StopOutcome;

fn options() -> RecordingOptions {
    RecordingOptions {
        user_id: "user-1".to_string(),
        video_id: "video-1".to_string(),
        screen_index: "1".to_string(),
        video_index: "0".to_string(),
        audio_name: "".to_string(),
        aws_region: "eu-west-1".to_string(),
        aws_bucket: "captures".to_string(),
        framerate: "60".to_string(),
        resolution: "1920x1080".to_string(),
    }
}

#[test]
fn start_without_base_dir_is_a_configuration_error() {
    // Scenario: base directory unset at start. A configuration error
    // comes back and no session becomes live.
    let mut c = SessionController::new();
    let r = c.start(options(), Platform::Linux);
    assert_eq!(r.err(), Some(StartError::NoBaseDir));
    assert!(!c.is_active());
}

#[test]
fn start_on_unsupported_platform_is_rejected() {
    let mut c = SessionController::new();
    c.set_base_dir("/tmp/session".to_string());
    let r = c.start(options(), Platform::Unsupported);
    assert_eq!(r.err(), Some(StartError::UnsupportedPlatform));
    assert!(!c.is_active());
}

#[test]
fn second_start_while_active_is_rejected() {
    let mut c = SessionController::new();
    c.set_base_dir("/tmp/session".to_string());
    assert!(c.start(options(), Platform::Linux).is_ok());
    let r = c.start(options(), Platform::Linux);
    assert_eq!(r.err(), Some(StartError::AlreadyActive));
    assert!(c.is_active());
}

#[test]
fn stop_twice_finds_nothing_the_second_time() {
    // Scenario: stop is called twice in sequence; the second call neither
    // panics nor hangs, it reports there was nothing to stop.
    let mut c = SessionController::new();
    c.set_base_dir("/tmp/session".to_string());
    assert!(c.start(options(), Platform::Linux).is_ok());
    assert_eq!(c.stop(), StopOutcome::Stopped);
    assert_eq!(c.stop(), StopOutcome::NothingToStop);
    assert!(!c.is_active());
}

#[test]
fn stop_without_start_finds_nothing() {
    let mut c = SessionController::new();
    assert_eq!(c.stop(), StopOutcome::NothingToStop);
}

#[test]
fn start_plan_lays_out_session_paths() {
    let mut c = SessionController::new();
    c.set_base_dir("/data/rec".to_string());
    let plan = c.start(options(), Platform::Linux).unwrap();
    assert_eq!(plan.screen_chunks_dir, "/data/rec/chunks/screen");
    assert_eq!(plan.audio_chunks_dir, "/data/rec/chunks/audio");
    assert_eq!(plan.screen_manifest_path, "/data/rec/chunks/screen/segment_list.txt");
    assert_eq!(plan.audio_manifest_path, "/data/rec/chunks/audio/segment_list.txt");
    assert_eq!(plan.screenshot_output_path, "/data/rec/screen-capture.jpg");
}

#[test]
fn start_after_stop_is_allowed_again() {
    let mut c = SessionController::new();
    c.set_base_dir("/tmp/session".to_string());
    assert!(c.start(options(), Platform::MacOs).is_ok());
    assert_eq!(c.stop(), StopOutcome::Stopped);
    assert!(c.start(options(), Platform::MacOs).is_ok());
    assert!(c.is_active());
}
