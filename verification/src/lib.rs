//! Remote desktop: one side streams its screen and audio, the other side watches and sends input.
//!
//! The crate holds what a session decides and computes: how packets, video and audio are cut into
//! messages and put together again, what the messages look like, what input means for the other
//! side, and how the two sides agree on their roles. Sockets, windows, the graphics and audio
//! devices, and the threads around them are left to the program that uses the crate.
pub mod caster;
pub mod common;
pub mod gpu;
pub mod key;
pub mod nal;
pub mod net;
pub mod server;
pub mod session;
pub mod signal;
pub mod streamer;
pub mod tcp;
pub mod timestamp;
pub mod udp;
pub mod viewer;
pub mod watcher;
pub mod wire;
