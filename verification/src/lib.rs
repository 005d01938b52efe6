//! A compact, self-describing binary serialization format and its
//! encoder/decoder engine, with a canonical key ordering for maps and a
//! versioned-entry data model layered on top.

use vstd::prelude::*;

pub mod cbor;
pub mod data;
pub mod db;
pub mod nobitmap;
pub mod util;
pub mod codec;
pub mod convert;
pub mod order;

verus! {

/// Failures surfaced by the library. Every failure is reported to the caller
/// as a typed result; there is no partial decode and no silent coercion.
#[derive(Debug, Clone, Copy, PartialEq, Eq, Structural)]
pub enum Error {
    /// The byte source ended before the value was complete, or a sink
    /// could not take the bytes.
    IOError,
    /// A reserved info code, a recursion-limit breach, a mismatched
    /// indefinite chunk, or an unsupported simple-value form.
    FailCbor,
    /// A value's shape or magnitude does not fit the requested conversion,
    /// a non-key-capable value stood where a map key was expected, or text
    /// was not valid UTF-8.
    FailConvert,
    /// An inter-thread channel failed.
    IPCFail,
    /// A worker thread could not be joined.
    ThreadFail,
}

pub type Result<T> = core::result::Result<T, Error>;

} // verus!
