//! The audio plane: turn detection, framing, recording and the external audio tools.

pub mod backend;
pub mod command_backend;
pub mod engine;
pub mod frames;
pub mod mic_permission;
pub mod record;
pub mod tool_detect;
pub mod vad;
