//! A bounded-depth web crawler library: link extraction, frontier
//! management with duplicate suppression, correlation-token encoding for
//! asynchronous request/response routing, and the orchestration logic for
//! both a blocking worker crawl and an event-driven callback crawl.
//!
//! All network transport and host messaging is left to the caller: the
//! library computes, from plain values, what to fetch next, how to tag an
//! outbound request, and how each completion changes the crawl state.

pub mod codec;
pub mod dispatch;
pub mod errors;
pub mod router;
pub mod extract;
pub mod frontier;
pub mod pages;
pub mod token;
pub mod worker;
