//! The escape sequence parser that the event loop feeds.

use vstd::prelude::*;

verus! {

/// The escape sequence parser: a `vte::ansi::Processor`.
///
/// The processor hands what it parses to a terminal, which the event loop has to lock; the owner
/// of the lock therefore calls `advance` and `stop_sync` on the processor itself. While a
/// synchronized update is under way the processor collects bytes instead of handing them on.
#[verifier::external_body]
pub struct Parser {
    pub processor: vte::ansi::Processor,
}

/// The bytes that a parser has collected for the synchronized update that is under way.
pub uninterp spec fn sync_buffer(parser: Parser) -> Seq<u8>;

/// The instant at which the synchronized update that is under way has to end; none where no such
/// update is under way.
pub uninterp spec fn sync_until(parser: Parser) -> Option<std::time::Instant>;

impl Parser {
    /// Calls `vte::ansi::Processor::new`. A new processor has collected nothing and has no
    /// synchronized update under way.
    #[verifier::external_body]
    pub(crate) fn new() -> (parser: Parser)
        ensures
            sync_buffer(parser) == Seq::<u8>::empty(),
            sync_until(parser) is None,
    {
        Parser { processor: vte::ansi::Processor::new() }
    }

    /// Calls `vte::ansi::Processor::sync_bytes_count`, which gives the number of collected bytes.
    #[verifier::external_body]
    pub(crate) fn sync_bytes_count(&self) -> (count: usize)
        ensures
            count == sync_buffer(*self).len(),
    {
        self.processor.sync_bytes_count()
    }

    /// Calls `vte::ansi::Processor::sync_timeout` and reads the deadline off the handler that it
    /// gives. The processor keeps the deadline from the beginning of an update to its end, so it
    /// depends on the processor alone.
    #[verifier::external_body]
    pub(crate) fn sync_deadline(&self) -> (deadline: Option<std::time::Instant>)
        ensures
            deadline == sync_until(*self),
    {
        self.processor.sync_timeout().sync_timeout()
    }
}

} // verus!
