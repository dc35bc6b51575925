//! The decisions of an event loop that shuttles bytes between a pseudoterminal and a terminal
//! emulator.
//!
//! The loop itself performs I/O and runs elsewhere. What it decides is here: which of the bytes
//! that were read are a repetition, what the parser gets to see, which bytes are written next and
//! when the loop polls, reads, writes, redraws or stops.

pub mod channel;
pub mod clock;
pub mod collapse;
pub mod event_loop;
pub mod failure;
pub mod message;
pub mod parser;
pub mod queue;
pub mod read;
pub mod recent;
pub mod state;
pub mod turn;
