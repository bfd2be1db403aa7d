//! A terminal multiplexer core: grid layout and navigation, the byte
//! protocol spoken to the sessions, the attention classifier and the
//! registry of panes with its focus state machine.

pub mod codec;
pub mod emulator;
pub mod layout;
pub mod palette;
pub mod screen;
pub mod session;
pub mod watchdog;
