//! Host-side library for a system of tactile blocks that represent audio
//! sources, tracked by a pair of fixed angle-of-arrival antennas. Raw sensor
//! lines are decoded into typed events, buffered, windowed into per-tag
//! snapshots, resolved into spherical readings, and finally serialized into
//! the GrapeFile format, a seekable binary layout that supports resampling.
//!
//! Angle and sample values are carried as IEEE 754 bit patterns (`u64` for
//! doubles, `u32` for singles), so that every structural step — decoding,
//! queueing, windowing, pairing, framing, interleaving, resampling layout —
//! is specified and verified exactly, while the numeric kernels that combine
//! those values (averaging, linear interpolation, angle scaling) are applied
//! by the embedding program at the boundary.

pub mod args;
pub mod channel;
pub mod component;
pub mod grape_block;
pub mod hardware_data_manager;
pub mod hardware_message_decoder;
pub mod hdm;
pub mod pipe_block;
pub mod saf;
pub mod spatial_data_format;
pub mod sphericalizer;
pub mod text;
pub mod time_domain_buffer;
pub mod update_accumulator;
