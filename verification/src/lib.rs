//! Decoder for recorded-session capture files ("demo files") of a family of
//! game-engine builds.
//!
//! The core is a bit-addressable read cursor over an in-memory byte buffer
//! ([`reader::BitReader`]), a protocol-version-dependent field-layout grammar,
//! a tagged-union dispatch over the embedded message kinds
//! ([`net_svc_messages`]), and a two-phase dynamic schema for game events
//! ([`game_event`]). Every decode path is specified against the mathematical
//! bit-stream model in [`bits`] and verified.

pub mod bits;
pub mod demo;
pub mod error;
pub mod game_event;
pub mod net_svc_messages;
pub mod packet;
pub mod parsing;
pub mod reader;
pub mod utils;
