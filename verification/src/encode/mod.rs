//! Media encoding: turning captured frames and chunks into timed samples.
//!
//! One encoder runs per media kind however many clients are connected. Both
//! follow the pipeline's real-time rule: a dropped frame or chunk is skipped,
//! never queued.
pub mod audio;
pub mod video;
