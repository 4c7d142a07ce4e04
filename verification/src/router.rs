//! The correlation router of callback mode. Every fetch completion
//! arrives as an event carrying a token and a payload; the router
//! decodes the token, updates the shared result aggregate, and computes
//! the follow-up fetches to dispatch. No malformed input is ever fatal:
//! a bad event is dropped with its diagnosis and the orchestrator keeps
//! running. An already-scraped url discovered again is re-dispatched —
//! callback mode performs no duplicate check.

use vstd::prelude::*;

use crate::codec::bytes_to_string;
use crate::codec::utf8_decode;
use crate::errors::CrawlError;
use crate::extract::get_links;
use crate::extract::spec_links;
use crate::pages::PageEntries;
use crate::pages::ScrapedPages;
use crate::pages::decode_pages;
use crate::pages::spec_decode_pages;
use crate::pages::spec_insert;
use crate::pages::spec_merge;
use crate::token::ParamsView;
use crate::token::ScrapeContext;
use crate::token::ScrapingParams;
use crate::token::TokenView;
use crate::token::decode_token;
use crate::token::spec_decode_token;
use crate::worker::tasks_at;

verus! {

/// The tasks a dispatch list stands for, in order.
pub open spec fn dispatch_views(v: Vec<ScrapingParams>) -> Seq<ParamsView> {
    Seq::new(v@.len(), |i: int| v@[i]@)
}

/// What handling one event did: the fetches to send next — each
/// fire-and-forget, at one level deeper — and the diagnosis of a
/// dropped event, if it was dropped.
pub struct RouteOutcome {
    pub dispatches: Vec<ScrapingParams>,
    pub error: Option<CrawlError>,
}

/// How one decoded response changes the aggregate: an `InLine` reply
/// merges a whole sub-crawl batch; a `Callback` reply stores its page
/// unconditionally and, below the depth bound, dispatches every
/// discovered link one level deeper, with no duplicate check.
pub open spec fn spec_route_decoded(
    pages: PageEntries,
    max_depth: nat,
    context: Seq<char>,
    payload: Seq<char>,
) -> (PageEntries, Seq<ParamsView>, Option<CrawlError>) {
    match spec_decode_token(context) {
        None => (pages, Seq::<ParamsView>::empty(), Some(CrawlError::ContextDecodeError)),
        Some(TokenView::InLine) => match spec_decode_pages(payload) {
            None => (pages, Seq::<ParamsView>::empty(), Some(CrawlError::MalformedResponse)),
            Some(batch) => (spec_merge(pages, batch), Seq::<ParamsView>::empty(), None),
        },
        Some(TokenView::Callback(t)) => (
            spec_insert(pages, t.url, payload),
            if t.depth < max_depth {
                tasks_at(spec_links(payload), t.depth + 1)
            } else {
                Seq::<ParamsView>::empty()
            },
            None,
        ),
    }
}

/// How one raw event changes the aggregate: a missing token or payload,
/// a token that is not text or not a token, or a payload that its
/// token's kind cannot read, drops the event with its diagnosis.
pub open spec fn spec_route(
    pages: PageEntries,
    max_depth: nat,
    context: Option<Seq<u8>>,
    payload: Option<Seq<u8>>,
) -> (PageEntries, Seq<ParamsView>, Option<CrawlError>) {
    match (context, payload) {
        (None, _) => (pages, Seq::<ParamsView>::empty(), Some(CrawlError::ContextDecodeError)),
        (Some(c), None) => (pages, Seq::<ParamsView>::empty(), Some(CrawlError::MalformedResponse)),
        (Some(c), Some(p)) => match utf8_decode(c) {
            None => (pages, Seq::<ParamsView>::empty(), Some(CrawlError::ContextDecodeError)),
            Some(cs) => match utf8_decode(p) {
                Some(ps) => spec_route_decoded(pages, max_depth, cs, ps),
                None => match spec_decode_token(cs) {
                    None => (
                        pages,
                        Seq::<ParamsView>::empty(),
                        Some(CrawlError::ContextDecodeError),
                    ),
                    Some(TokenView::InLine) => (
                        pages,
                        Seq::<ParamsView>::empty(),
                        Some(CrawlError::MalformedResponse),
                    ),
                    Some(TokenView::Callback(_)) => (
                        pages,
                        Seq::<ParamsView>::empty(),
                        Some(CrawlError::PageDecodeError),
                    ),
                },
            },
        },
    }
}

/// Routes one response whose token and payload already read as text,
/// exactly as `spec_route_decoded` describes.
pub fn route_decoded(
    pages: &mut ScrapedPages,
    max_depth: u32,
    context: &str,
    payload: String,
) -> (r: RouteOutcome)
    requires
        old(pages).wf(),
    ensures
        final(pages).wf(),
        ({
            let (p2, disp, err) = spec_route_decoded(
                old(pages)@,
                max_depth as nat,
                context@,
                payload@,
            );
            &&& final(pages)@ == p2
            &&& dispatch_views(r.dispatches) == disp
            &&& r.error == err
        }),
{
    match decode_token(context) {
        None => {
            let empty_d: Vec<ScrapingParams> = Vec::new();
            proof {
                assert(dispatch_views(empty_d) =~= Seq::<ParamsView>::empty());
            }
            RouteOutcome { dispatches: empty_d, error: Some(CrawlError::ContextDecodeError) }
        },
        Some(ScrapeContext::InLine) => {
            match decode_pages(payload.as_str()) {
                None => {
                    let empty_d: Vec<ScrapingParams> = Vec::new();
                    proof {
                        assert(dispatch_views(empty_d) =~= Seq::<ParamsView>::empty());
                    }
                    RouteOutcome { dispatches: empty_d, error: Some(CrawlError::MalformedResponse) }
                },
                Some(batch) => {
                    pages.merge(batch);
                    let empty_d: Vec<ScrapingParams> = Vec::new();
                    proof {
                        assert(dispatch_views(empty_d) =~= Seq::<ParamsView>::empty());
                    }
                    RouteOutcome { dispatches: empty_d, error: None }
                },
            }
        },
        Some(ScrapeContext::Callback(t)) => {
            let mut dispatches: Vec<ScrapingParams> = Vec::new();
            if t.depth < max_depth {
                let d = t.depth + 1;
                let links = get_links(payload.as_str());
                let ghost lv = spec_links(payload@);
                let n = links.len();
                let mut i: usize = 0;
                let mut rest = links;
                proof {
                    assert(dispatch_views(dispatches) =~= tasks_at(lv, d as nat).take(0));
                    assert(rest.deep_view() =~= lv.skip(0));
                }
                while i < n
                    invariant
                        i <= n,
                        n == lv.len(),
                        rest.deep_view() =~= lv.skip(i as int),
                        dispatch_views(dispatches) =~= tasks_at(lv, d as nat).take(i as int),
                    decreases n - i,
                {
                    let ghost rv0 = rest@;
                    let ghost rdv0 = rest.deep_view();
                    proof {
                        assert(rdv0.len() == rv0.len());
                        assert(rdv0[0] == rv0[0].deep_view());
                    }
                    let link = rest.remove(0);
                    let ghost dv0 = dispatch_views(dispatches);
                    proof {
                        assert(link@ == lv[i as int]);
                        assert forall|q: int|
                            0 <= q < rest.deep_view().len() implies rest.deep_view()[q] == lv.skip(
                            i + 1,
                        )[q] by {
                            assert(rest@[q] == rv0[q + 1]);
                            assert(rest.deep_view()[q] == rest@[q].deep_view());
                            assert(rdv0[q + 1] == rv0[q + 1].deep_view());
                            assert(rdv0[q + 1] == lv.skip(i as int)[q + 1]);
                            assert(lv.skip(i as int)[q + 1] == lv[i + 1 + q]);
                            assert(lv.skip(i + 1)[q] == lv[i + 1 + q]);
                        }
                        assert(rest.deep_view() =~= lv.skip(i + 1));
                    }
                    dispatches.push(ScrapingParams { url: link, depth: d });
                    proof {
                        assert(dispatch_views(dispatches) =~= dv0.push(
                            ParamsView { url: lv[i as int], depth: d as nat },
                        ));
                        assert(tasks_at(lv, d as nat).take(i + 1) =~= tasks_at(lv, d as nat).take(
                            i as int,
                        ).push(ParamsView { url: lv[i as int], depth: d as nat }));
                    }
                    i += 1;
                }
                proof {
                    assert(tasks_at(lv, d as nat).take(n as int) =~= tasks_at(lv, d as nat));
                }
            } else {
                proof {
                    assert(dispatch_views(dispatches) =~= Seq::<ParamsView>::empty());
                }
            }
            pages.insert(t.url, payload);
            RouteOutcome { dispatches, error: None }
        },
    }
}

/// Routes one raw response event — token bytes and payload bytes, each
/// possibly missing — exactly as `spec_route` describes. This is the
/// whole per-event step of the callback orchestrator: the caller sends
/// the returned dispatches fire-and-forget and logs the diagnosis.
pub fn handle_response(
    pages: &mut ScrapedPages,
    max_depth: u32,
    context: Option<Vec<u8>>,
    payload: Option<Vec<u8>>,
) -> (r: RouteOutcome)
    requires
        old(pages).wf(),
    ensures
        final(pages).wf(),
        ({
            let (p2, disp, err) = spec_route(
                old(pages)@,
                max_depth as nat,
                match context {
                    Some(c) => Some(c@),
                    None => None,
                },
                match payload {
                    Some(p) => Some(p@),
                    None => None,
                },
            );
            &&& final(pages)@ == p2
            &&& dispatch_views(r.dispatches) == disp
            &&& r.error == err
        }),
{
    let (cb, pb) = match (context, payload) {
        (None, _) => {
            let empty_d: Vec<ScrapingParams> = Vec::new();
            proof {
                assert(dispatch_views(empty_d) =~= Seq::<ParamsView>::empty());
            }
            return RouteOutcome { dispatches: empty_d, error: Some(CrawlError::ContextDecodeError) };
        },
        (Some(c), None) => {
            let empty_d: Vec<ScrapingParams> = Vec::new();
            proof {
                assert(dispatch_views(empty_d) =~= Seq::<ParamsView>::empty());
            }
            return RouteOutcome { dispatches: empty_d, error: Some(CrawlError::MalformedResponse) };
        },
        (Some(c), Some(p)) => (c, p),
    };
    let ctx_text = match bytes_to_string(cb) {
        None => {
            let empty_d: Vec<ScrapingParams> = Vec::new();
            proof {
                assert(dispatch_views(empty_d) =~= Seq::<ParamsView>::empty());
            }
            return RouteOutcome { dispatches: empty_d, error: Some(CrawlError::ContextDecodeError) };
        },
        Some(s) => s,
    };
    match bytes_to_string(pb) {
        Some(pay_text) => route_decoded(pages, max_depth, ctx_text.as_str(), pay_text),
        None => {
            let err = match decode_token(ctx_text.as_str()) {
                None => CrawlError::ContextDecodeError,
                Some(ScrapeContext::InLine) => CrawlError::MalformedResponse,
                Some(ScrapeContext::Callback(_)) => CrawlError::PageDecodeError,
            };
            let empty_d: Vec<ScrapingParams> = Vec::new();
            proof {
                assert(dispatch_views(empty_d) =~= Seq::<ParamsView>::empty());
            }
            RouteOutcome { dispatches: empty_d, error: Some(err) }
        },
    }
}

} // verus!
