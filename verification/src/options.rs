//! Immutable configuration for one recording session.

use vstd::prelude::*;

verus! {

/// Configuration supplied when a session starts: identity of the target
/// owner and asset, capture device selection, encoder settings, and the
/// destination-storage coordinates. Cloned into every downstream task and
/// never mutated.
#[derive(Clone, Debug)]
pub struct RecordingOptions {
    pub user_id: String,
    pub video_id: String,
    pub screen_index: String,
    pub video_index: String,
    pub audio_name: String,
    pub aws_region: String,
    pub aws_bucket: String,
    pub framerate: String,
    pub resolution: String,
}

} // verus!
