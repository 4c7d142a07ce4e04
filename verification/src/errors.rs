//! The error taxonomy of a crawl. Only a malformed bootstrap message is
//! fatal: it aborts a worker before any crawling begins. Every per-item
//! failure is recoverable — the item is skipped, never retried, and the
//! crawl goes on.

use vstd::prelude::*;

verus! {

#[derive(Clone, Copy, PartialEq, Eq, Structural, Debug)]
pub enum CrawlError {
    /// The worker-mode bootstrap payload did not decode: fatal.
    StartupParseError,
    /// A blocking fetch exceeded its bound.
    FetchTimeout,
    /// The transport failed to deliver a fetch or its reply.
    FetchTransportError,
    /// A reply arrived without the parts its kind requires.
    MalformedResponse,
    /// A page payload was not decodable as text.
    PageDecodeError,
    /// A reply's correlation token was missing or undecodable.
    ContextDecodeError,
    /// A delegated sub-crawl could not be started; only that sub-crawl
    /// is lost.
    WorkerSpawnError,
}

impl CrawlError {
    /// Only a startup parse failure halts a whole crawl.
    pub fn is_fatal(&self) -> (b: bool)
        ensures
            b == (*self == CrawlError::StartupParseError),
    {
        match self {
            CrawlError::StartupParseError => true,
            _ => false,
        }
    }

    /// Every error other than the fatal one is skipped and the crawl
    /// proceeds.
    pub fn is_recoverable(&self) -> (b: bool)
        ensures
            b == (*self != CrawlError::StartupParseError),
    {
        !self.is_fatal()
    }
}

} // verus!
