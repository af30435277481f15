//! The recording session controller.
//!
//! Exactly one session may be live at a time. The controller is an explicit
//! `Idle`/`Active` state machine: `start` rejects a second session instead
//! of overwriting a live one, and computes everything the runtime needs to
//! bring the session up — the per-stream chunk directories and manifest
//! paths to create, and the encoder argument lists to spawn with. `stop`
//! on an idle controller finds nothing to stop and says so instead of
//! failing; on an active one it steps back to `Idle` and the runtime then
//! sends the graceful-quit command, flips the shutdown signal and waits
//! for both pipelines' flush-complete signals.

use vstd::prelude::*;

use crate::args::Platform;
use crate::args::StreamKind;
use crate::args::spec_chunks_dir;
use crate::args::spec_manifest_path;
use crate::args::spec_recording_args;
use crate::args::spec_screenshot_args;
use crate::args::spec_screenshot_path;
use crate::args::join_path;
use crate::args::manifest_path;
use crate::args::recording_args;
use crate::args::screenshot_args;
use crate::options::RecordingOptions;

verus! {

/// Whether a session is live.
#[derive(Clone, Copy, Debug, PartialEq, Eq, Structural)]
pub enum SessionPhase {
    Idle,
    Active,
}

/// Why a session could not start. Each is fatal to `start` and leaves no
/// partial state behind.
#[derive(Clone, Copy, Debug, PartialEq, Eq, Structural)]
pub enum StartError {
    /// No writable base directory is configured.
    NoBaseDir,
    /// A session is already live; it is not overwritten.
    AlreadyActive,
    /// No capture arguments exist for this platform.
    UnsupportedPlatform,
}

/// What a stop request found.
#[derive(Clone, Copy, Debug, PartialEq, Eq, Structural)]
pub enum StopOutcome {
    /// A live session was told to shut down.
    Stopped,
    /// No session was live; nothing to stop.
    NothingToStop,
}

/// Everything the runtime needs to bring a session up: the directories to
/// wipe and recreate, the manifest files to pre-create empty, where the
/// one-off screenshot goes, and the encoder argument lists.
pub struct StartPlan {
    pub screen_chunks_dir: String,
    pub audio_chunks_dir: String,
    pub screen_manifest_path: String,
    pub audio_manifest_path: String,
    pub screenshot_output_path: String,
    pub screen_args: Vec<String>,
    pub screenshot_args: Vec<String>,
}

/// Owns the session lifecycle and exposes start and stop as the only
/// operations.
pub struct SessionController {
    phase: SessionPhase,
    base_dir: Option<String>,
    options: Option<RecordingOptions>,
}

impl SessionController {
    /// Whether a session is live.
    pub closed spec fn phase(self) -> SessionPhase {
        self.phase
    }

    /// The configured base storage directory, if any.
    pub closed spec fn base_dir_spec(self) -> Option<Seq<char>> {
        match self.base_dir {
            Some(d) => Some(d@),
            None => None,
        }
    }

    /// The options of the live session, if one is.
    pub closed spec fn options_spec(self) -> Option<RecordingOptions> {
        self.options
    }

    /// One stop step: what `stop` found and did.
    pub open spec fn stop_rel(
        pre: SessionController,
        post: SessionController,
        outcome: StopOutcome,
    ) -> bool {
        &&& post.base_dir_spec() == pre.base_dir_spec()
        &&& if pre.phase() == SessionPhase::Active {
            outcome == StopOutcome::Stopped && post.phase() == SessionPhase::Idle
                && post.options_spec() is None
        } else {
            outcome == StopOutcome::NothingToStop && post == pre
        }
    }

    /// A fresh controller: idle, no base directory, no options.
    pub fn new() -> (c: SessionController)
        ensures
            c.phase() == SessionPhase::Idle,
            c.base_dir_spec() is None,
            c.options_spec() is None,
    {
        SessionController { phase: SessionPhase::Idle, base_dir: None, options: None }
    }

    /// Configures the base storage directory for sessions to come.
    pub fn set_base_dir(&mut self, dir: String)
        ensures
            final(self).base_dir_spec() == Some(dir@),
            final(self).phase() == old(self).phase(),
            final(self).options_spec() == old(self).options_spec(),
    {
        self.base_dir = Some(dir);
    }

    /// Starts a session: rejected while one is live, when no base
    /// directory is configured, or on an unsupported platform — in that
    /// order, with nothing changed; otherwise the controller becomes
    /// active, keeps the options, and returns the plan of directories,
    /// manifest paths and encoder argument lists for the runtime to
    /// execute.
    pub fn start(&mut self, options: RecordingOptions, platform: Platform) -> (r: Result<
        StartPlan,
        StartError,
    >)
        ensures
            old(self).phase() == SessionPhase::Active ==> r == Err::<StartPlan, StartError>(
                StartError::AlreadyActive,
            ) && *final(self) == *old(self),
            old(self).phase() == SessionPhase::Idle && old(self).base_dir_spec() is None ==> r
                == Err::<StartPlan, StartError>(StartError::NoBaseDir) && *final(self) == *old(
                self,
            ),
            old(self).phase() == SessionPhase::Idle && old(self).base_dir_spec() is Some
                && platform == Platform::Unsupported ==> r == Err::<StartPlan, StartError>(
                StartError::UnsupportedPlatform,
            ) && *final(self) == *old(self),
            old(self).phase() == SessionPhase::Idle && old(self).base_dir_spec() is Some
                && platform != Platform::Unsupported ==> r is Ok && {
                let base = old(self).base_dir_spec()->0;
                let plan = r->Ok_0;
                &&& final(self).phase() == SessionPhase::Active
                &&& final(self).options_spec() == Some(options)
                &&& final(self).base_dir_spec() == old(self).base_dir_spec()
                &&& plan.screen_chunks_dir@ == spec_chunks_dir(base, StreamKind::Screen)
                &&& plan.audio_chunks_dir@ == spec_chunks_dir(base, StreamKind::Audio)
                &&& plan.screen_manifest_path@ == spec_manifest_path(
                    spec_chunks_dir(base, StreamKind::Screen),
                )
                &&& plan.audio_manifest_path@ == spec_manifest_path(
                    spec_chunks_dir(base, StreamKind::Audio),
                )
                &&& plan.screenshot_output_path@ == spec_screenshot_path(base)
                &&& plan.screen_args.deep_view() == spec_recording_args(
                    platform,
                    options.framerate@,
                    spec_chunks_dir(base, StreamKind::Screen),
                    StreamKind::Screen,
                    options.screen_index@,
                )
                &&& plan.screenshot_args.deep_view() == spec_screenshot_args(
                    platform,
                    options.screen_index@,
                    spec_screenshot_path(base),
                )
            },
    {
        match self.phase {
            SessionPhase::Active => Err(StartError::AlreadyActive),
            SessionPhase::Idle => {
                let base = match &self.base_dir {
                    Some(d) => d.clone(),
                    None => {
                        return Err(StartError::NoBaseDir);
                    },
                };
                let screen_chunks_dir = join_path(base.as_str(), "/chunks/screen");
                let audio_chunks_dir = join_path(base.as_str(), "/chunks/audio");
                let screen_manifest = manifest_path(screen_chunks_dir.as_str());
                let audio_manifest = manifest_path(audio_chunks_dir.as_str());
                let screenshot_path = join_path(base.as_str(), "/screen-capture.jpg");
                let screen_args = match recording_args(
                    platform,
                    &options,
                    screen_chunks_dir.as_str(),
                    StreamKind::Screen,
                    options.screen_index.as_str(),
                ) {
                    Ok(a) => a,
                    Err(e) => {
                        return Err(e);
                    },
                };
                let shot_args = match screenshot_args(
                    platform,
                    options.screen_index.as_str(),
                    screenshot_path.as_str(),
                ) {
                    Ok(a) => a,
                    Err(e) => {
                        return Err(e);
                    },
                };
                self.phase = SessionPhase::Active;
                self.options = Some(options);
                Ok(
                    StartPlan {
                        screen_chunks_dir,
                        audio_chunks_dir,
                        screen_manifest_path: screen_manifest,
                        audio_manifest_path: audio_manifest,
                        screenshot_output_path: screenshot_path,
                        screen_args,
                        screenshot_args: shot_args,
                    },
                )
            },
        }
    }

    /// Stops the live session, if one is: the controller returns to idle
    /// and the caller then quits the encoder, flips the shutdown signal
    /// and waits for both flush-complete signals. A second stop finds
    /// nothing to stop — it neither fails nor hangs.
    pub fn stop(&mut self) -> (outcome: StopOutcome)
        ensures
            SessionController::stop_rel(*old(self), *final(self), outcome),
    {
        match self.phase {
            SessionPhase::Active => {
                self.phase = SessionPhase::Idle;
                self.options = None;
                StopOutcome::Stopped
            },
            SessionPhase::Idle => StopOutcome::NothingToStop,
        }
    }

    /// Whether a session is live.
    pub fn is_active(&self) -> (active: bool)
        ensures
            active == (self.phase() == SessionPhase::Active),
    {
        match self.phase {
            SessionPhase::Active => true,
            SessionPhase::Idle => false,
        }
    }
}

/// Stopping twice in sequence is harmless: when a stop has already brought
/// the controller back to idle, a second stop finds nothing to stop and
/// changes nothing.
pub proof fn lemma_stop_twice(
    s0: SessionController,
    s1: SessionController,
    s2: SessionController,
    first: StopOutcome,
    second: StopOutcome,
)
    requires
        s0.phase() == SessionPhase::Active,
        SessionController::stop_rel(s0, s1, first),
        SessionController::stop_rel(s1, s2, second),
    ensures
        first == StopOutcome::Stopped,
        second == StopOutcome::NothingToStop,
        s2 == s1,
{
}

} // verus!
