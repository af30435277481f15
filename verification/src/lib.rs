//! Orchestration core for a segmented media capture session.
//!
//! An external encoder writes finalized media segments to disk and appends
//! each segment's filename to an append-only manifest file. This library
//! holds the verified logic of the pipeline that discovers those segments,
//! dispatches one upload unit per segment, and coordinates a clean shutdown
//! that drains all in-flight and newly appeared work exactly once.
//!
//! All file, process and network I/O lives outside this crate; the library
//! works on plain values (manifest text, segment names, completion flags)
//! handed in by the surrounding runtime.

mod args;
mod manifest;
mod options;
mod pipeline;
mod session;
mod watcher;

pub use args::Platform;
pub use args::StreamKind;
pub use args::is_jpeg_name;
pub use args::manifest_path;
pub use args::quit_command;
pub use args::recording_args;
pub use args::screenshot_args;
pub use manifest::parse_manifest;
pub use manifest::split_lines;
pub use options::RecordingOptions;
pub use pipeline::Pipeline;
pub use pipeline::PipelineState;
pub use session::SessionController;
pub use session::SessionPhase;
pub use session::StartError;
pub use session::StartPlan;
pub use session::StopOutcome;
pub use watcher::SegmentWatcher;
