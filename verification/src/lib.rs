//! The core of Joy, a baby monitor's capture agent.
//!
//! Captured frames and audio chunks are stamped with a monotonic [`time`],
//! converted and encoded, and offered to clients that connect through the
//! [`signaling`] protocol. The modules hold the data, the rules and the
//! decisions; devices, sockets and tasks belong to the program around them,
//! which performs what it is told and reports back what happened.
//!
//! - [`time`]: monotonic timestamps.
//! - [`video`], [`audio`]: frames, chunks, configurations and capabilities.
//! - [`camera`], [`microphone`]: how hardware sources choose a mode, stamp what
//!   they capture and recover from failures.
//! - [`simulate`]: the synthetic sources.
//! - [`color`], [`jpeg`], [`convert`]: pixel formats and their conversion to
//!   planar I420.
//! - [`encode`], [`codec`]: what is encoded, how samples are timed, and which
//!   codecs are offered.
//! - [`signaling`], [`pump`], [`session`], [`negotiation`]: the wire protocol,
//!   one client's socket, its media session, and how its offer is answered.
//! - [`probe`], [`serve`]: the two modes of the agent.
//! - [`error`], [`text`]: errors and the numbers in messages.
pub mod audio;
pub mod camera;
pub mod codec;
pub mod color;
pub mod convert;
pub mod encode;
pub mod error;
pub mod jpeg;
pub mod microphone;
pub mod negotiation;
pub mod probe;
pub mod pump;
pub mod serve;
pub mod session;
pub mod signaling;
pub mod simulate;
pub mod text;
pub mod time;
pub mod video;
