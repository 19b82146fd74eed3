//! Chord recognition for keyboard input: a state machine that turns a
//! stream of key presses and releases into canonical chord strings.

pub mod devices;
pub mod event_processor;
pub mod interceptor;
pub mod stuffs;
pub mod test_utilities;
pub mod text;
