//! The values that flow through the engine: devices, keys, states, events.

pub mod key_code;
pub mod key_identifier;
pub mod key_state;
pub mod keyboard;
pub mod keyboard_event;
pub mod timestamp;
