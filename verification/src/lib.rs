//! The decision core of a line-in bridge: a device that captures audio and
//! streams it to an audio server.
//!
//! Everything here works on plain values. Sockets, sound cards, clocks,
//! processes and floating-point signal processing belong to the embedding
//! program, which reports what happened and carries out what is decided here.

pub mod audio;
pub mod config;
pub mod discovery;
pub mod hooks;
pub mod models;
pub mod pcm;
pub mod resampler;
pub mod session;
pub mod status;
pub mod stream;
pub mod text;
