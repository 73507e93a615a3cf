//! Stereo audio capture packaging: frame matrices, their binary payload,
//! and the flat envelope that carries one buffer to a transport.

pub mod device;
pub mod frames;
pub mod payload;
pub mod senml;
pub mod uniqueness;
