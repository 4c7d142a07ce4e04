use scraper::errors::CrawlError;
use scraper::pages::decode_pages;
use scraper::pages::ScrapedPages;
use scraper::router::handle_response;
use scraper::router::route_decoded;
use scraper::token::encode_token;
use scraper::token::ScrapeContext;
use scraper::token::ScrapingParams;

fn callback_context(url: &str, depth: u32) -> String {
    encode_token(&ScrapeContext::Callback(ScrapingParams {
        url: url.to_string(),
        depth,
    }))
}

#[test]
fn callback_reply_stores_page_and_dispatches_links() {
    let mut pages = ScrapedPages::new();
    let ctx = callback_context("http://a", 0);
    let page = "<a href=\"http://b\">\n<a href=\"http://c\">";
    let out = route_decoded(&mut pages, 3, ctx.as_str(), page.to_string());
    assert!(out.error.is_none());
    assert_eq!(pages.get("http://a").unwrap().as_str(), page);
    let dispatched: Vec<(&str, u32)> = out
        .dispatches
        .iter()
        .map(|p| (p.url.as_str(), p.depth))
        .collect();
    assert_eq!(dispatched, vec![("http://b", 1), ("http://c", 1)]);
}

#[test]
fn at_the_depth_bound_nothing_is_dispatched() {
    let mut pages = ScrapedPages::new();
    let ctx = callback_context("http://deep", 3);
    let out = route_decoded(&mut pages, 3, ctx.as_str(), "<a href=\"http://x\">".to_string());
    assert!(out.error.is_none());
    assert!(out.dispatches.is_empty());
    assert!(pages.get("http://deep").is_some());
}

#[test]
fn already_scraped_url_is_redispatched() {
    // callback mode performs no duplicate check: a url already in the
    // aggregate is dispatched again when rediscovered
    let mut pages = ScrapedPages::new();
    let first = route_decoded(
        &mut pages,
        2,
        callback_context("http://b", 0).as_str(),
        "first content of b".to_string(),
    );
    assert!(first.error.is_none());
    let out = route_decoded(
        &mut pages,
        2,
        callback_context("http://a", 0).as_str(),
        "<a href=\"http://b\">".to_string(),
    );
    assert!(out.error.is_none());
    assert_eq!(out.dispatches.len(), 1);
    assert_eq!(out.dispatches[0].url.as_str(), "http://b");
    assert_eq!(out.dispatches[0].depth, 1);
    // and a second completion for b overwrites its entry
    let again = route_decoded(
        &mut pages,
        2,
        callback_context("http://b", 1).as_str(),
        "second content of b".to_string(),
    );
    assert!(again.error.is_none());
    assert_eq!(pages.get("http://b").unwrap().as_str(), "second content of b");
    assert_eq!(pages.len(), 2);
}

#[test]
fn inline_reply_merges_the_whole_batch() {
    let mut pages = ScrapedPages::new();
    let ctx = encode_token(&ScrapeContext::InLine);
    let batch = "{\"http://b\":\"pb\",\"http://c\":\"pc\"}";
    let out = route_decoded(&mut pages, 3, ctx.as_str(), batch.to_string());
    assert!(out.error.is_none());
    assert!(out.dispatches.is_empty());
    assert_eq!(pages.get("http://b").unwrap().as_str(), "pb");
    assert_eq!(pages.get("http://c").unwrap().as_str(), "pc");
    assert_eq!(pages.len(), 2);
}

#[test]
fn inline_reply_with_bad_batch_is_dropped() {
    let mut pages = ScrapedPages::new();
    let ctx = encode_token(&ScrapeContext::InLine);
    let out = route_decoded(&mut pages, 3, ctx.as_str(), "not a batch".to_string());
    assert_eq!(out.error, Some(CrawlError::MalformedResponse));
    assert_eq!(pages.len(), 0);
}

#[test]
fn undecodable_context_is_dropped() {
    let mut pages = ScrapedPages::new();
    let out = route_decoded(&mut pages, 3, "junk context", "a page".to_string());
    assert_eq!(out.error, Some(CrawlError::ContextDecodeError));
    assert_eq!(pages.len(), 0);
}

#[test]
fn missing_context_is_dropped() {
    let mut pages = ScrapedPages::new();
    let out = handle_response(&mut pages, 3, None, Some(b"a page".to_vec()));
    assert_eq!(out.error, Some(CrawlError::ContextDecodeError));
    assert_eq!(pages.len(), 0);
}

#[test]
fn missing_payload_is_dropped() {
    let mut pages = ScrapedPages::new();
    let ctx = callback_context("http://a", 0);
    let out = handle_response(&mut pages, 3, Some(ctx.into_bytes()), None);
    assert_eq!(out.error, Some(CrawlError::MalformedResponse));
    assert_eq!(pages.len(), 0);
}

#[test]
fn page_bytes_that_are_not_text_are_dropped() {
    let mut pages = ScrapedPages::new();
    let ctx = callback_context("http://a", 0);
    let out = handle_response(&mut pages, 3, Some(ctx.into_bytes()), Some(vec![0xff, 0xfe]));
    assert_eq!(out.error, Some(CrawlError::PageDecodeError));
    assert_eq!(pages.len(), 0);
}

#[test]
fn context_bytes_that_are_not_text_are_dropped() {
    let mut pages = ScrapedPages::new();
    let out = handle_response(&mut pages, 3, Some(vec![0xc0, 0x80]), Some(b"page".to_vec()));
    assert_eq!(out.error, Some(CrawlError::ContextDecodeError));
    assert_eq!(pages.len(), 0);
}

#[test]
fn whole_event_round_trip_over_bytes() {
    let mut pages = ScrapedPages::new();
    let ctx = callback_context("http://caf\u{e9}", 0);
    let page = "body of caf\u{e9}";
    let out = handle_response(
        &mut pages,
        1,
        Some(ctx.into_bytes()),
        Some(page.as_bytes().to_vec()),
    );
    assert!(out.error.is_none());
    assert_eq!(pages.get("http://caf\u{e9}").unwrap().as_str(), page);
}

#[test]
fn batch_encoding_round_trips() {
    let mut pages = ScrapedPages::new();
    pages.insert("http://a\"q".to_string(), "line1\\line2".to_string());
    pages.insert("http://b".to_string(), "pb".to_string());
    let wire = pages.encode();
    let back = decode_pages(wire.as_str()).expect("own encoding decodes");
    assert_eq!(back.len(), 2);
    assert_eq!(back[0].0.as_str(), "http://a\"q");
    assert_eq!(back[0].1.as_str(), "line1\\line2");
    assert_eq!(back[1].0.as_str(), "http://b");
    assert_eq!(back[1].1.as_str(), "pb");
}

#[test]
fn batch_decode_rejects_malformed_objects() {
    assert!(decode_pages("").is_none());
    assert!(decode_pages("{").is_none());
    assert!(decode_pages("{\"a\":\"b\"").is_none());
    assert!(decode_pages("{\"a\":\"b\",}").is_none());
    assert!(decode_pages("[\"a\"]").is_none());
    assert!(decode_pages("{} ").is_none());
}

#[test]
fn insert_replaces_in_place() {
    let mut pages = ScrapedPages::new();
    pages.insert("http://a".to_string(), "one".to_string());
    pages.insert("http://b".to_string(), "two".to_string());
    pages.insert("http://a".to_string(), "three".to_string());
    assert_eq!(pages.len(), 2);
    assert_eq!(pages.get("http://a").unwrap().as_str(), "three");
    assert_eq!(pages.encode().as_str(), "{\"http://a\":\"three\",\"http://b\":\"two\"}");
}
