//! The request dispatcher: builds, from plain values, everything an
//! outbound fetch needs — the target of the host's HTTP-fetch
//! collaborator, the request body (method GET, the url, no headers, no
//! fixed protocol version), and the correlation token carried alongside.
//! Sending, blocking or fire-and-forget, is the caller's side.

use vstd::prelude::*;

use crate::codec::esc;
use crate::codec::append_escaped;
use crate::token::ParamsView;
use crate::token::ScrapeContext;
use crate::token::ScrapingParams;
use crate::token::TokenView;
use crate::token::encode_token;
use crate::token::encode_params;
use crate::token::spec_encode_params;
use crate::token::spec_encode_token;

verus! {

/// How long a blocking send waits for its single reply, in the
/// transport's time units; on expiry the pending fetch is abandoned,
/// with no retry and no upstream cancel.
pub const BLOCKING_FETCH_TIMEOUT: u64 = 15;

/// Everything one outbound fetch needs; the caller hands it to the
/// transport.
pub struct FetchRequest {
    /// The node whose fetch collaborator is addressed.
    pub target_node: String,
    /// The process that performs HTTP fetches on that node.
    pub target_process: String,
    /// The request body on the wire.
    pub ipc: String,
    /// The correlation token, carried out-of-band with the request.
    pub context: String,
}

/// The process identifier of the host's HTTP-fetch collaborator.
pub open spec fn fetch_process_id() -> Seq<char> {
    seq![
        'h',
        't',
        't',
        'p',
        '_',
        'c',
        'l',
        'i',
        'e',
        'n',
        't',
        ':',
        's',
        'y',
        's',
        ':',
        'u',
        'q',
        'b',
        'a',
        'r',
    ]
}

/// The request body of a fetch: method GET, the url, an empty header
/// mapping, no fixed protocol version.
pub open spec fn http_request_text(url: Seq<char>) -> Seq<char> {
    seq![
        '{',
        '"',
        'm',
        'e',
        't',
        'h',
        'o',
        'd',
        '"',
        ':',
        '"',
        'G',
        'E',
        'T',
        '"',
        ',',
        '"',
        'u',
        'r',
        'l',
        '"',
        ':',
        '"',
    ] + esc(url) + seq![
        '"',
        ',',
        '"',
        'v',
        'e',
        'r',
        's',
        'i',
        'o',
        'n',
        '"',
        ':',
        'n',
        'u',
        'l',
        'l',
        ',',
        '"',
        'h',
        'e',
        'a',
        'd',
        'e',
        'r',
        's',
        '"',
        ':',
        '{',
        '}',
        '}',
    ]
}

/// Builds the fetch of one page: a GET for `link`, tagged with a
/// `Callback` token that carries the url and depth back with the reply.
pub fn scrape_link(our_node: &str, link: &str, depth: u32) -> (r: FetchRequest)
    ensures
        r.target_node@ == our_node@,
        r.target_process@ == fetch_process_id(),
        r.ipc@ == http_request_text(link@),
        r.context@ == spec_encode_token(
            TokenView::Callback(ParamsView { url: link@, depth: depth as nat }),
        ),
{
    let mut ipc = String::from_str("{\"method\":\"GET\",\"url\":\"");
    proof {
        reveal_strlit("{\"method\":\"GET\",\"url\":\"");
    }
    append_escaped(&mut ipc, link);
    ipc.append("\",\"version\":null,\"headers\":{}}");
    proof {
        reveal_strlit("\",\"version\":null,\"headers\":{}}");
        assert(ipc@ =~= http_request_text(link@));
    }
    let context = encode_token(
        &ScrapeContext::Callback(ScrapingParams { url: String::from_str(link), depth }),
    );
    let process = String::from_str("http_client:sys:uqbar");
    proof {
        reveal_strlit("http_client:sys:uqbar");
        assert(process@ =~= fetch_process_id());
    }
    FetchRequest {
        target_node: String::from_str(our_node),
        target_process: process,
        ipc,
        context,
    }
}

/// Builds the two payloads of a delegated sub-crawl: the bootstrap
/// message for the spawned worker — its seed url and depth bound — and
/// the `InLine` token under which the worker's single batch reply will
/// come back.
pub fn delegate_subcrawl(seed: &str, max_depth: u32) -> (r: (String, String))
    ensures
        r.0@ == spec_encode_params(ParamsView { url: seed@, depth: max_depth as nat }),
        r.1@ == spec_encode_token(TokenView::InLine),
{
    let bootstrap = encode_params(seed, max_depth);
    let context = encode_token(&ScrapeContext::InLine);
    (bootstrap, context)
}

} // verus!
