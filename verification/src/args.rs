//! Encoder command lines, paths and tags.
//!
//! The encoder is driven entirely by the argument list it is spawned with:
//! capture source, frame rate, codec, segment duration, and the manifest
//! path it appends each finalized segment's name to. This module builds
//! those argument lists, the per-stream paths, and the related small
//! constants, per platform, as plain values for the runtime to hand to the
//! process it spawns.

use vstd::prelude::*;

use crate::options::RecordingOptions;
use crate::session::StartError;

verus! {

/// The platform the capture session runs on, as the runtime reports it.
#[derive(Clone, Copy, Debug, PartialEq, Eq, Structural)]
pub enum Platform {
    MacOs,
    Windows,
    Linux,
    /// Any other platform: no capture arguments exist for it.
    Unsupported,
}

/// The kind of media an upload unit carries.
#[derive(Clone, Copy, Debug, PartialEq, Eq, Structural)]
pub enum StreamKind {
    /// A screen recording segment.
    Screen,
    /// An audio recording segment.
    Audio,
    /// A one-off still of the screen.
    Screenshot,
}

impl StreamKind {
    /// The tag under which this kind of upload is filed.
    pub open spec fn spec_tag(self) -> Seq<char> {
        match self {
            StreamKind::Screen => "screen"@,
            StreamKind::Audio => "audio"@,
            StreamKind::Screenshot => "screenshot"@,
        }
    }

    /// The tag as a string, for the upload collaborator.
    pub fn tag(&self) -> (t: String)
        ensures
            t@ == self.spec_tag(),
    {
        match self {
            StreamKind::Screen => String::from_str("screen"),
            StreamKind::Audio => String::from_str("audio"),
            StreamKind::Screenshot => String::from_str("screenshot"),
        }
    }
}

/// Where a stream's segment files go, under the session's base directory.
pub open spec fn spec_chunks_dir(base_dir: Seq<char>, kind: StreamKind) -> Seq<char> {
    if kind == StreamKind::Screen {
        base_dir + "/chunks/screen"@
    } else {
        base_dir + "/chunks/audio"@
    }
}

/// The manifest file inside a stream's chunk directory.
pub open spec fn spec_manifest_path(chunks_dir: Seq<char>) -> Seq<char> {
    chunks_dir + "/segment_list.txt"@
}

/// The filename pattern the encoder writes segments under.
pub open spec fn spec_output_pattern(chunks_dir: Seq<char>) -> Seq<char> {
    chunks_dir + "/recording_chunk_%03d.ts"@
}

/// Where the one-off screenshot goes, under the session's base directory.
pub open spec fn spec_screenshot_path(base_dir: Seq<char>) -> Seq<char> {
    base_dir + "/screen-capture.jpg"@
}

/// The frame rate handed to the encoder: screen capture is pinned to 30,
/// every other stream uses the configured rate.
pub open spec fn spec_fps(kind: StreamKind, framerate: Seq<char>) -> Seq<char> {
    if kind == StreamKind::Screen {
        "30"@
    } else {
        framerate
    }
}

/// The segmented-recording argument list, per platform: capture source,
/// codec and rate settings, and the segment muxer writing 3-second MPEG-TS
/// chunks under `chunks_dir` with their names appended to the manifest.
pub open spec fn spec_recording_args(
    platform: Platform,
    framerate: Seq<char>,
    chunks_dir: Seq<char>,
    kind: StreamKind,
    input_index: Seq<char>,
) -> Seq<Seq<char>> {
    let fps = spec_fps(kind, framerate);
    let list = spec_manifest_path(chunks_dir);
    let out = spec_output_pattern(chunks_dir);
    match platform {
        Platform::MacOs => seq![
            "-f"@, "avfoundation"@,
            "-framerate"@, fps,
            "-capture_cursor"@, "1"@,
            "-thread_queue_size"@, "512"@,
            "-i"@, input_index,
            "-c:v"@, "libx264"@,
            "-preset"@, "ultrafast"@,
            "-pix_fmt"@, "yuv420p"@,
            "-g"@, "30"@,
            "-r"@, fps,
            "-an"@,
            "-f"@, "segment"@,
            "-segment_time"@, "3"@,
            "-segment_format"@, "mpegts"@,
            "-segment_list"@, list,
            "-segment_list_type"@, "flat"@,
            "-reset_timestamps"@, "1"@,
            out,
        ],
        Platform::Linux => seq![
            "-f"@, "x11grab"@,
            "-i"@, input_index + "+0,0"@,
            "-draw_mouse"@, "1"@,
            "-pix_fmt"@, "yuv420p"@,
            "-c:v"@, "libx264"@,
            "-crf"@, "28"@,
            "-preset"@, "ultrafast"@,
            "-g"@, "30"@,
            "-r"@, fps,
            "-an"@,
            "-f"@, "segment"@,
            "-segment_time"@, "3"@,
            "-segment_format"@, "mpegts"@,
            "-segment_list"@, list,
            "-segment_list_type"@, "flat"@,
            "-reset_timestamps"@, "1"@,
            out,
        ],
        Platform::Windows => seq![
            "-f"@, "gdigrab"@,
            "-i"@, "desktop"@,
            "-pixel_format"@, "yuv420p"@,
            "-c:v"@, "libx264"@,
            "-crf"@, "28"@,
            "-preset"@, "ultrafast"@,
            "-g"@, "30"@,
            "-r"@, fps,
            "-an"@,
            "-f"@, "segment"@,
            "-segment_time"@, "3"@,
            "-segment_format"@, "mpegts"@,
            "-segment_list"@, list,
            "-segment_list_type"@, "flat"@,
            "-reset_timestamps"@, "1"@,
            out,
        ],
        Platform::Unsupported => Seq::empty(),
    }
}

/// The one-shot screenshot argument list, per platform: grab one frame of
/// the screen into `output_path`, overwriting it.
pub open spec fn spec_screenshot_args(
    platform: Platform,
    screen_index: Seq<char>,
    output_path: Seq<char>,
) -> Seq<Seq<char>> {
    match platform {
        Platform::MacOs => seq![
            "-y"@, "-f"@, "avfoundation"@, "-i"@, screen_index, "-vframes"@, "1"@, output_path,
        ],
        Platform::Windows => seq![
            "-y"@, "-f"@, "gdigrab"@, "-i"@, "desktop"@, "-vframes"@, "1"@, output_path,
        ],
        Platform::Linux => seq![
            "-y"@, "-f"@, "x11grab"@, "-i"@, ":0.0"@, "-vframes"@, "1"@, output_path,
        ],
        Platform::Unsupported => Seq::empty(),
    }
}

/// Joins a directory and a path fragment that starts with a separator.
pub fn join_path(dir: &str, tail: &str) -> (joined: String)
    ensures
        joined@ == dir@ + tail@,
{
    String::from_str(dir).concat(tail)
}

/// The manifest file's path for a chunk directory.
pub fn manifest_path(chunks_dir: &str) -> (path: String)
    ensures
        path@ == spec_manifest_path(chunks_dir@),
{
    join_path(chunks_dir, "/segment_list.txt")
}

/// Builds the segmented-recording argument list for the encoder, or says
/// the platform is unsupported — the one reason this can fail.
pub fn recording_args(
    platform: Platform,
    options: &RecordingOptions,
    chunks_dir: &str,
    kind: StreamKind,
    input_index: &str,
) -> (r: Result<Vec<String>, StartError>)
    ensures
        r is Ok <==> platform != Platform::Unsupported,
        r is Err ==> r->Err_0 == StartError::UnsupportedPlatform,
        r is Ok ==> (r->Ok_0).deep_view() == spec_recording_args(
            platform,
            options.framerate@,
            chunks_dir@,
            kind,
            input_index@,
        ),
{
    if platform == Platform::Unsupported {
        return Err(StartError::UnsupportedPlatform);
    }
    let fps: String = if kind == StreamKind::Screen {
        String::from_str("30")
    } else {
        options.framerate.clone()
    };
    let list = manifest_path(chunks_dir);
    let out = join_path(chunks_dir, "/recording_chunk_%03d.ts");
    let mut a: Vec<String> = Vec::new();
    a.push(String::from_str("-f"));
    match platform {
        Platform::MacOs => {
            a.push(String::from_str("avfoundation"));
            a.push(String::from_str("-framerate"));
            a.push(fps.clone());
            a.push(String::from_str("-capture_cursor"));
            a.push(String::from_str("1"));
            a.push(String::from_str("-thread_queue_size"));
            a.push(String::from_str("512"));
            a.push(String::from_str("-i"));
            a.push(String::from_str(input_index));
            a.push(String::from_str("-c:v"));
            a.push(String::from_str("libx264"));
            a.push(String::from_str("-preset"));
            a.push(String::from_str("ultrafast"));
            a.push(String::from_str("-pix_fmt"));
            a.push(String::from_str("yuv420p"));
        },
        Platform::Linux => {
            a.push(String::from_str("x11grab"));
            a.push(String::from_str("-i"));
            a.push(String::from_str(input_index).concat("+0,0"));
            a.push(String::from_str("-draw_mouse"));
            a.push(String::from_str("1"));
            a.push(String::from_str("-pix_fmt"));
            a.push(String::from_str("yuv420p"));
            a.push(String::from_str("-c:v"));
            a.push(String::from_str("libx264"));
            a.push(String::from_str("-crf"));
            a.push(String::from_str("28"));
            a.push(String::from_str("-preset"));
            a.push(String::from_str("ultrafast"));
        },
        Platform::Windows => {
            a.push(String::from_str("gdigrab"));
            a.push(String::from_str("-i"));
            a.push(String::from_str("desktop"));
            a.push(String::from_str("-pixel_format"));
            a.push(String::from_str("yuv420p"));
            a.push(String::from_str("-c:v"));
            a.push(String::from_str("libx264"));
            a.push(String::from_str("-crf"));
            a.push(String::from_str("28"));
            a.push(String::from_str("-preset"));
            a.push(String::from_str("ultrafast"));
        },
        Platform::Unsupported => {
            return Err(StartError::UnsupportedPlatform);
        },
    }
    a.push(String::from_str("-g"));
    a.push(String::from_str("30"));
    a.push(String::from_str("-r"));
    a.push(fps);
    a.push(String::from_str("-an"));
    a.push(String::from_str("-f"));
    a.push(String::from_str("segment"));
    a.push(String::from_str("-segment_time"));
    a.push(String::from_str("3"));
    a.push(String::from_str("-segment_format"));
    a.push(String::from_str("mpegts"));
    a.push(String::from_str("-segment_list"));
    a.push(list);
    a.push(String::from_str("-segment_list_type"));
    a.push(String::from_str("flat"));
    a.push(String::from_str("-reset_timestamps"));
    a.push(String::from_str("1"));
    a.push(out);
    proof {
        assert(a.deep_view() =~= spec_recording_args(
            platform,
            options.framerate@,
            chunks_dir@,
            kind,
            input_index@,
        ));
    }
    Ok(a)
}

/// Builds the one-shot screenshot argument list, or says the platform is
/// unsupported — the one reason this can fail.
pub fn screenshot_args(
    platform: Platform,
    screen_index: &str,
    output_path: &str,
) -> (r: Result<Vec<String>, StartError>)
    ensures
        r is Ok <==> platform != Platform::Unsupported,
        r is Err ==> r->Err_0 == StartError::UnsupportedPlatform,
        r is Ok ==> (r->Ok_0).deep_view() == spec_screenshot_args(
            platform,
            screen_index@,
            output_path@,
        ),
{
    let mut a: Vec<String> = Vec::new();
    a.push(String::from_str("-y"));
    a.push(String::from_str("-f"));
    match platform {
        Platform::MacOs => {
            a.push(String::from_str("avfoundation"));
            a.push(String::from_str("-i"));
            a.push(String::from_str(screen_index));
        },
        Platform::Windows => {
            a.push(String::from_str("gdigrab"));
            a.push(String::from_str("-i"));
            a.push(String::from_str("desktop"));
        },
        Platform::Linux => {
            a.push(String::from_str("x11grab"));
            a.push(String::from_str("-i"));
            a.push(String::from_str(":0.0"));
        },
        Platform::Unsupported => {
            return Err(StartError::UnsupportedPlatform);
        },
    }
    a.push(String::from_str("-vframes"));
    a.push(String::from_str("1"));
    a.push(String::from_str(output_path));
    proof {
        assert(a.deep_view() =~= spec_screenshot_args(platform, screen_index@, output_path@));
    }
    Ok(a)
}

/// The graceful-quit command written to the encoder's input stream: one
/// textual command, newline-terminated.
pub fn quit_command() -> (c: String)
    ensures
        c@ == "q\n"@,
{
    String::from_str("q\n")
}

/// Whether a filename carries extension `ext`: it ends in a dot followed
/// by exactly `ext`, with a non-empty stem before the dot.
pub open spec fn spec_has_extension(name: Seq<char>, ext: Seq<char>) -> bool {
    &&& name.len() >= ext.len() + 2
    &&& name.subrange(name.len() - ext.len(), name.len() as int) == ext
    &&& name[name.len() - ext.len() - 1] == '.'
}

/// Whether a filename names a JPEG image: extension `jpg` or `jpeg`.
pub open spec fn spec_is_jpeg_name(name: Seq<char>) -> bool {
    spec_has_extension(name, "jpg"@) || spec_has_extension(name, "jpeg"@)
}

/// Whether `name` ends in a dot followed by exactly `ext`, with a
/// non-empty stem before the dot.
pub fn has_extension(name: &str, ext: &str) -> (r: bool)
    ensures
        r == spec_has_extension(name@, ext@),
{
    let n = name.unicode_len();
    let e = ext.unicode_len();
    if n <= e || n - e < 2 {
        return false;
    }
    if name.get_char(n - e - 1) != '.' {
        return false;
    }
    let mut i: usize = 0;
    while i < e
        invariant
            i <= e,
            e == ext@.len(),
            n == name@.len(),
            n >= e + 2,
            forall|k: int| 0 <= k < i ==> name@[n - e + k] == ext@[k],
        decreases e - i,
    {
        if name.get_char(n - e + i) != ext.get_char(i) {
            proof {
                if name@.subrange(n - e, n as int) == ext@ {
                    assert(name@.subrange(n - e, n as int)[i as int] == ext@[i as int]);
                }
            }
            return false;
        }
        i = i + 1;
    }
    proof {
        assert(name@.subrange(n - e, n as int) =~= ext@);
    }
    true
}

/// Whether a filename names a JPEG image: extension `jpg` or `jpeg`,
/// exactly, as the screenshot side-flow files them.
pub fn is_jpeg_name(name: &str) -> (r: bool)
    ensures
        r == spec_is_jpeg_name(name@),
{
    has_extension(name, "jpg") || has_extension(name, "jpeg")
}

} // verus!
