//! Core of an internet-radio streamer: wall-clock to playlist resolution,
//! the player loop's decisions, timed fan-out with replay and shedding,
//! inline stream-title metadata, the output format table, the command lines
//! and diagnostics of the media toolchain, and the streams registry.

pub mod broadcast;
pub mod bytes;
pub mod codec;
pub mod control;
pub mod formats;
pub mod icy;
pub mod listen;
pub mod media;
pub mod player;
pub mod registry;
pub mod resolver;
pub mod stream;
