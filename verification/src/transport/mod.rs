//! What the daemon's servers decide: on phone frames, on the control socket, and on advertising.

pub mod control_server;
pub mod discovery;
pub mod phone_server;
