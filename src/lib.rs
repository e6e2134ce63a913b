//! Signal and control logic for subtitle shadowing practice: cutting the
//! audio of the visible subtitle line, recording an imitation, and quick
//! measurements for feedback.
//!
//! - [`player`]: messages of the media player's control channel and
//!   correlation of replies with requests.
//! - [`trigger`]: the state machine that turns a trigger into playback
//!   commands and a cut job.
//! - [`cut`]: cut windows, artifact names and encoder argument vectors.
//! - [`retention`]: which clips to keep.
//! - [`devices`]: capture device listing and choice.
//! - [`mailbox`]: single-slot coalescing handoff to the presentation layer.
//! - [`wav`]: 16-bit PCM WAV decoding.
//! - [`pitch`]: frame-wise fundamental-frequency estimation.
//! - [`text`]: decimal rendering.
use vstd::prelude::*;

pub mod cut;
pub mod devices;
pub mod mailbox;
pub mod pitch;
pub mod player;
pub mod retention;
pub mod text;
pub mod trigger;
pub mod wav;

verus! {

} // verus!
