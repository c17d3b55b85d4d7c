//! The WebSocket wire protocol: frame codec, masking, message assembly and
//! the opening handshake, with their behaviour stated and proved.
use vstd::prelude::*;

pub mod bytes;
pub mod censor;
pub mod frame;
pub mod handshake;
pub mod message;
pub mod protocol;
pub mod role;
mod support;
pub mod ui;
