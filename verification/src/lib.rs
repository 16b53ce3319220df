//! Length-prefixed message framing over a byte stream.
//!
//! A byte stream has no borders. A sender puts the length of each message
//! in front of it; a receiver feeds whatever bytes arrive, in pieces of any
//! size, into a [`Processor`] and takes whole messages out of it.
//!
//! - [`protocol`] and [`varint`] hold the two wire formats of a length,
//!   fixed-width and variable-width.
//! - [`sender`] puts a payload behind its prefix.
//! - [`store`] keeps the bytes that arrived and were not yet taken out.
//! - [`stream`] says what a framed stream means, and states the laws that
//!   hold of it: cutting a stream into pieces changes nothing, frames sent
//!   together arrive one by one and in order, and no byte is lost.
//! - [`reassembly`] is the decoder, [`processor`] the decoder with a queue
//!   of the messages that are ready.
//! - [`messenger`] decides what the two activities of a duplex messenger
//!   do next. Reading, writing and waiting are left to the caller.
//!
//! [`Processor`]: processor::Processor

pub mod messenger;
pub mod processor;
pub mod protocol;
pub mod reassembly;
pub mod sender;
pub mod store;
pub mod stream;
pub mod varint;
