//! Dynamics processing for a multichannel audio pipeline: a loudness-tracking
//! compressor driving a shared gain curve, and per-channel peak limiters with
//! waveshaping or feed-forward lookahead.
//!
//! Every amplitude, coefficient and level is a fixed-point `i64` tick count
//! (see `fixed`), so each processing stage carries an exact contract: the
//! monitor combination, the envelope and gain recurrences, the delay
//! alignment of the lookahead detector, and the reset semantics of parameter
//! updates are all stated over sequences and proved.

pub mod compressor;
pub mod config;
pub mod delay;
pub mod fixed;
pub mod history;
pub mod laws;
pub mod limiter;
