//! The side of a session that shows the other side's screen and sends input.
pub mod audio;
pub mod event_loop;
