//! Core of a live-captioning scripture presenter: a verified library for the
//! capture -> transcription -> hybrid-matching pipeline.
//!
//! The library holds the decision logic of the pipeline: byte-level text
//! processing, explicit-reference parsing, the corpus index with its lookup
//! and search operations, voice-activity gating, windowed session
//! orchestration, and the display-item model.  Hardware audio, digital signal
//! processing and model inference are floating-point and I/O work that lives
//! outside the library; they communicate with it through plain values
//! (byte strings, sample words, fixed-point scores).

pub mod audio;
pub mod detect;
pub mod media;
pub mod remote;
pub mod session;
pub mod store;
pub mod text;
