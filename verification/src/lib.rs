//! Offline audio analysis and transition planning for DJ-style automatic
//! mixing.
//!
//! The crate works on a fixed-point model of time and signal level: times are
//! milliseconds, tempos are thousandths of a beat per minute, confidences are
//! thousandths, and envelope samples are millionths of full scale.  Floating
//! point signal processing (decoding, filtering, FFT) lives outside the
//! library and hands in plain integer series.

pub mod bpm;
pub mod camelot;
pub mod download;
pub mod envelope;
pub mod grid;
pub mod key;
pub mod longmix;
pub mod media;
pub mod planner;
pub mod record;
pub mod scan;
pub mod synthesize;
pub mod textconv;
