//! The side of a session that shows its screen and obeys the other side's input.
pub mod audio;
pub mod encoder;
pub mod input;
pub mod video;
