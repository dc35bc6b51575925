//! The messages that are sent to the event loop.

use std::borrow::Cow;
use vstd::prelude::*;

verus! {

#[verifier::external_type_specification]
#[verifier::external_body]
pub struct ExIoError(std::io::Error);

/// The size of a terminal window, in cells and in pixels per cell.
#[derive(Debug, Clone, Copy, PartialEq, Eq, Structural)]
pub struct WindowSize {
    pub num_lines: u16,
    pub num_cols: u16,
    pub cell_width: u16,
    pub cell_height: u16,
}

/// Messages that may be sent to the event loop.
#[derive(Debug)]
pub enum Msg {
    /// Data that should be written to the pseudoterminal.
    Input(Cow<'static, [u8]>),
    /// The event loop should shut down.
    Shutdown,
    /// Instruction to resize the pseudoterminal.
    Resize(WindowSize),
}

/// Why a message did not reach the event loop.
#[derive(Debug)]
pub enum EventLoopSendError {
    /// The event loop could not be woken up.
    Io(std::io::Error),
    /// The queue is closed; this is the message that it did not take.
    Send(Msg),
}

/// The number of bytes behind `bytes`.
pub(crate) fn cow_len(bytes: &Cow<'static, [u8]>) -> (n: usize)
    ensures
        n == bytes@.len(),
{
    match bytes {
        Cow::Borrowed(slice) => slice.len(),
        Cow::Owned(vec) => vec.len(),
    }
}

/// No buffer is larger than a machine word can count.
pub(crate) proof fn lemma_cow_fits(bytes: Cow<'static, [u8]>)
    ensures
        bytes@.len() <= usize::MAX,
{
    match bytes {
        Cow::Borrowed(slice) => {
            assert(slice.len() == slice@.len());
        },
        Cow::Owned(vec) => {
            assert(vec.len() == vec@.len());
        },
    }
}

/// The bytes behind `bytes` from `start` on.
pub(crate) fn cow_from<'a>(bytes: &'a Cow<'static, [u8]>, start: usize) -> (rest: &'a [u8])
    requires
        start <= bytes@.len(),
    ensures
        rest@ == bytes@.skip(start as int),
{
    match bytes {
        Cow::Borrowed(slice) => vstd::slice::slice_subrange(slice, start, slice.len()),
        Cow::Owned(vec) => vstd::slice::slice_subrange(vec.as_slice(), start, vec.len()),
    }
}

/// The message that carries `bytes`; none where there are no bytes, since the terminal hangs on a
/// write of zero bytes.
pub fn input_message(bytes: Cow<'static, [u8]>) -> (msg: Option<Msg>)
    ensures
        msg == (if bytes@.len() == 0 {
            None
        } else {
            Some(Msg::Input(bytes))
        }),
{
    if cow_len(&bytes) == 0 {
        None
    } else {
        Some(Msg::Input(bytes))
    }
}

} // verus!
