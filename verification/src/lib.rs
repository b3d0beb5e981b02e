//! Step recording: the session model, the recording state machine, and the
//! operations the desktop front end invokes on a recording.
pub mod capture;
pub mod clock;
pub mod commands;
pub mod ids;
pub mod input;
pub mod manager;
pub mod markers;
pub mod model;
pub mod text;
