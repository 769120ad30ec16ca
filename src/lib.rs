//! A variable-speed tape delay: audio is recorded onto a circular tape and
//! played back at a rate that follows the tape speed in effect when each
//! stretch of tape was recorded.
//!
//! - [`tape`]: the circular tape, its overflow and underrun policies, and the
//!   first-in first-out law that it obeys.
//! - [`schedule`]: the queue of speed changes that reach the playback side one
//!   span of tape after they are made.
//! - [`pull`]: how many tape samples each chunk of output consumes at a ratio
//!   of speeds, without drift.
//! - [`engine`]: configuration, and the per-chunk step that ties them together.
//! - [`ui`]: layout of a generic parameter editor.
pub mod engine;
pub mod pull;
pub mod schedule;
pub mod tape;
pub mod ui;
