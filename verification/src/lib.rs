//! A tick-synchronized frame relay.
//!
//! On every tick the relay asks a capture source for one frame and, when one
//! is ready, republishes it with format metadata attached.  The crate holds
//! the decisions of that cycle as pure, verified functions: the conversion of
//! a decimal frame rate to an exact rational, the typed configuration, the
//! pipeline description, the metadata bag and the relay's state machine.
//! Reading settings, driving the capture source and talking to the message
//! bus are left to the caller.

pub mod config;
pub mod metadata;
pub mod numeral;
pub mod pipeline;
pub mod rate;
pub mod relay;
pub mod text;
