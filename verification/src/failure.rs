//! I/O failures, as far as the event loop tells them apart.

use vstd::prelude::*;

verus! {

/// What kind of failure an I/O operation ended in.
#[derive(Debug, Clone, Copy, PartialEq, Eq, Structural)]
pub enum IoErrorKind {
    /// The operation was interrupted and can be tried again.
    Interrupted,
    /// The operation would have to wait.
    WouldBlock,
    /// Anything else.
    Other,
}

impl IoErrorKind {
    /// Whether the operation can simply be tried again later.
    pub open spec fn is_transient(self) -> bool {
        self != IoErrorKind::Other
    }

    /// Whether the operation can simply be tried again later.
    pub fn transient(self) -> (yes: bool)
        ensures
            yes == self.is_transient(),
    {
        match self {
            IoErrorKind::Interrupted | IoErrorKind::WouldBlock => true,
            IoErrorKind::Other => false,
        }
    }
}

/// Linux's `EIO`, the error code of a read or write that failed in the device.
pub const LINUX_EIO: i32 = 5;

/// The error code by which a read on a pseudoterminal reports that the other side hung up.
///
/// Only Linux has one, which is `EIO`.
pub fn hangup_error(on_linux: bool) -> (code: Option<i32>)
    ensures
        code == (if on_linux {
            Some(LINUX_EIO)
        } else {
            None
        }),
        on_linux ==> code == Some(5i32),
{
    if on_linux {
        Some(LINUX_EIO)
    } else {
        None
    }
}

/// An interruption and a wait are worth another try, any other failure is not.
pub proof fn law_interruption_and_wait_are_transient(kind: IoErrorKind)
    ensures
        kind.is_transient() <==> kind is Interrupted || kind is WouldBlock,
{
}

} // verus!
