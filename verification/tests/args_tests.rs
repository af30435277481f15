use capture_pipeline::Platform;
use capture_pipeline::RecordingOptions;
use capture_pipeline::StartError;
use capture_pipeline::StreamKind;
use capture_pipeline::is_jpeg_name;
use capture_pipeline::manifest_path;
use capture_pipeline::quit_command;
use capture_pipeline::recording_args;
use capture_pipeline::screenshot_args;

fn options() -> RecordingOptions {
    RecordingOptions {
        user_id: "user-1".to_string(),
        video_id: "video-1".to_string(),
        screen_index: "2".to_string(),
        video_index: "0".to_string(),
        audio_name: "mic".to_string(),
        aws_region: "eu-west-1".to_string(),
        aws_bucket: "captures".to_string(),
        framerate: "24".to_string(),
        resolution: "1280x720".to_string(),
    }
}

fn strs(v: &[&str]) -> Vec<String> {
    v.iter().map(|s| s.to_string()).collect()
}

#[test]
fn linux_screen_recording_args_are_exact() {
    let args = recording_args(Platform::Linux, &options(), "/d/chunks/screen", StreamKind::Screen, "2")
        .unwrap();
    assert_eq!(
        args,
        strs(&[
            "-f", "x11grab",
            "-i", "2+0,0",
            "-draw_mouse", "1",
            "-pix_fmt", "yuv420p",
            "-c:v", "libx264",
            "-crf", "28",
            "-preset", "ultrafast",
            "-g", "30",
            "-r", "30",
            "-an",
            "-f", "segment",
            "-segment_time", "3",
            "-segment_format", "mpegts",
            "-segment_list", "/d/chunks/screen/segment_list.txt",
            "-segment_list_type", "flat",
            "-reset_timestamps", "1",
            "/d/chunks/screen/recording_chunk_%03d.ts",
        ])
    );
}

#[test]
fn macos_audio_recording_args_use_configured_framerate() {
    let args = recording_args(Platform::MacOs, &options(), "/d/chunks/audio", StreamKind::Audio, "2")
        .unwrap();
    assert_eq!(
        args,
        strs(&[
            "-f", "avfoundation",
            "-framerate", "24",
            "-capture_cursor", "1",
            "-thread_queue_size", "512",
            "-i", "2",
            "-c:v", "libx264",
            "-preset", "ultrafast",
            "-pix_fmt", "yuv420p",
            "-g", "30",
            "-r", "24",
            "-an",
            "-f", "segment",
            "-segment_time", "3",
            "-segment_format", "mpegts",
            "-segment_list", "/d/chunks/audio/segment_list.txt",
            "-segment_list_type", "flat",
            "-reset_timestamps", "1",
            "/d/chunks/audio/recording_chunk_%03d.ts",
        ])
    );
}

#[test]
fn windows_recording_args_capture_the_desktop() {
    let args = recording_args(Platform::Windows, &options(), "/d/s", StreamKind::Screen, "2")
        .unwrap();
    assert_eq!(&args[..4], &strs(&["-f", "gdigrab", "-i", "desktop"])[..]);
    assert_eq!(args.last().unwrap(), "/d/s/recording_chunk_%03d.ts");
}

#[test]
fn unsupported_platform_yields_no_args() {
    let r = recording_args(Platform::Unsupported, &options(), "/d/s", StreamKind::Screen, "2");
    assert_eq!(r.err(), Some(StartError::UnsupportedPlatform));
    let r = screenshot_args(Platform::Unsupported, "2", "/d/shot.jpg");
    assert_eq!(r.err(), Some(StartError::UnsupportedPlatform));
}

#[test]
fn screenshot_args_grab_one_frame() {
    let args = screenshot_args(Platform::MacOs, "2", "/d/shot.jpg").unwrap();
    assert_eq!(args, strs(&["-y", "-f", "avfoundation", "-i", "2", "-vframes", "1", "/d/shot.jpg"]));
    let args = screenshot_args(Platform::Linux, "2", "/d/shot.jpg").unwrap();
    assert_eq!(args, strs(&["-y", "-f", "x11grab", "-i", ":0.0", "-vframes", "1", "/d/shot.jpg"]));
    let args = screenshot_args(Platform::Windows, "2", "/d/shot.jpg").unwrap();
    assert_eq!(args, strs(&["-y", "-f", "gdigrab", "-i", "desktop", "-vframes", "1", "/d/shot.jpg"]));
}

#[test]
fn stream_kind_tags_name_the_upload_kind() {
    assert_eq!(StreamKind::Screen.tag(), "screen");
    assert_eq!(StreamKind::Audio.tag(), "audio");
    assert_eq!(StreamKind::Screenshot.tag(), "screenshot");
}

#[test]
fn quit_command_is_one_newline_terminated_q() {
    assert_eq!(quit_command(), "q\n");
}

#[test]
fn manifest_path_sits_inside_the_chunk_dir() {
    assert_eq!(manifest_path("/d/chunks/audio"), "/d/chunks/audio/segment_list.txt");
}

#[test]
fn jpeg_names_are_recognized_by_extension() {
    assert!(is_jpeg_name("shot.jpg"));
    assert!(is_jpeg_name("shot.jpeg"));
    assert!(is_jpeg_name("a.tar.jpg"));
    assert!(!is_jpeg_name("shot.png"));
    assert!(!is_jpeg_name("shot.jpg.txt"));
    assert!(!is_jpeg_name(".jpg"));
    assert!(!is_jpeg_name("jpg"));
    assert!(!is_jpeg_name(""));
}
