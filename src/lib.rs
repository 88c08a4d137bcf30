//! The discrete core of a polyphonic subtractive synthesizer: the noise
//! source, the voice allocator with its legato queue, glide and sustain rules,
//! the splitting of an audio buffer into sample-accurate sub-blocks, and the
//! filter that decides which log events are collected.

pub mod noise_generator;
pub mod synth;
pub mod renderer;
pub mod logger;
