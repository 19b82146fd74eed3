//! What the engine needs to know of input devices.

pub mod input;
