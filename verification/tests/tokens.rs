use scraper::dispatch::delegate_subcrawl;
use scraper::errors::CrawlError;
use scraper::dispatch::scrape_link;
use scraper::token::decode_params;
use scraper::token::decode_token;
use scraper::token::encode_params;
use scraper::token::encode_token;
use scraper::token::ScrapeContext;
use scraper::token::ScrapingParams;

#[test]
fn inline_token_wire_shape() {
    let t = encode_token(&ScrapeContext::InLine);
    assert_eq!(t.as_str(), "{\"Inline\":null}");
}

#[test]
fn callback_token_wire_shape() {
    let t = encode_token(&ScrapeContext::Callback(ScrapingParams {
        url: "http://x".to_string(),
        depth: 2,
    }));
    assert_eq!(t.as_str(), "{\"Callback\":{\"url\":\"http://x\",\"depth\":2}}");
}

#[test]
fn callback_token_round_trip() {
    let original = ScrapeContext::Callback(ScrapingParams {
        url: "http://x".to_string(),
        depth: 2,
    });
    let wire = encode_token(&original);
    match decode_token(wire.as_str()) {
        Some(ScrapeContext::Callback(p)) => {
            assert_eq!(p.url.as_str(), "http://x");
            assert_eq!(p.depth, 2);
        }
        _ => panic!("callback token did not round-trip"),
    }
}

#[test]
fn inline_token_round_trip() {
    let wire = encode_token(&ScrapeContext::InLine);
    assert!(matches!(decode_token(wire.as_str()), Some(ScrapeContext::InLine)));
}

#[test]
fn url_with_quotes_and_backslashes_round_trips() {
    let odd = "http://h/a\"b\\c";
    let wire = encode_token(&ScrapeContext::Callback(ScrapingParams {
        url: odd.to_string(),
        depth: 7,
    }));
    match decode_token(wire.as_str()) {
        Some(ScrapeContext::Callback(p)) => {
            assert_eq!(p.url.as_str(), odd);
            assert_eq!(p.depth, 7);
        }
        _ => panic!("escaped url did not round-trip"),
    }
}

#[test]
fn garbage_tokens_are_rejected() {
    assert!(decode_token("").is_none());
    assert!(decode_token("{\"Inline\":null").is_none());
    assert!(decode_token("{\"Inline\":null} ").is_none());
    assert!(decode_token("{\"Callback\":{\"url\":\"x\",\"depth\":}}").is_none());
    assert!(decode_token("{\"Callback\":{\"url\":\"x\",\"depth\":1}").is_none());
    assert!(decode_token("not a token at all").is_none());
}

#[test]
fn params_wire_shape_and_round_trip() {
    let wire = encode_params("http://a", 3);
    assert_eq!(wire.as_str(), "{\"url\":\"http://a\",\"depth\":3}");
    let p = decode_params(wire.as_str()).expect("params decode");
    assert_eq!(p.url.as_str(), "http://a");
    assert_eq!(p.depth, 3);
}

#[test]
fn params_depth_over_u32_is_rejected() {
    assert!(decode_params("{\"url\":\"http://a\",\"depth\":4294967296}").is_none());
    let max = decode_params("{\"url\":\"http://a\",\"depth\":4294967295}").expect("u32 max fits");
    assert_eq!(max.depth, u32::MAX);
}

#[test]
fn malformed_params_are_rejected() {
    assert!(decode_params("").is_none());
    assert!(decode_params("{\"url\":\"http://a\"}").is_none());
    assert!(decode_params("{\"url\":\"http://a\",\"depth\":2}x").is_none());
    assert!(decode_params("{\"depth\":2,\"url\":\"http://a\"}").is_none());
}

#[test]
fn fetch_request_is_built_whole() {
    let r = scrape_link("our-node", "http://site/page", 1);
    assert_eq!(r.target_node.as_str(), "our-node");
    assert_eq!(r.target_process.as_str(), "http_client:sys:uqbar");
    assert_eq!(
        r.ipc.as_str(),
        "{\"method\":\"GET\",\"url\":\"http://site/page\",\"version\":null,\"headers\":{}}"
    );
    assert_eq!(
        r.context.as_str(),
        "{\"Callback\":{\"url\":\"http://site/page\",\"depth\":1}}"
    );
}

#[test]
fn delegation_builds_bootstrap_and_inline_token() {
    let (bootstrap, context) = delegate_subcrawl("http://seed", 4);
    assert_eq!(bootstrap.as_str(), "{\"url\":\"http://seed\",\"depth\":4}");
    assert_eq!(context.as_str(), "{\"Inline\":null}");
}

#[test]
fn depth_at_u32_max_round_trips() {
    let wire = encode_params("x", u32::MAX);
    assert_eq!(wire.as_str(), "{\"url\":\"x\",\"depth\":4294967295}");
    let p = decode_params(wire.as_str()).expect("own encoding decodes");
    assert_eq!(p.depth, u32::MAX);
}

#[test]
fn only_startup_parse_is_fatal() {
    let recoverable = [
        CrawlError::FetchTimeout,
        CrawlError::FetchTransportError,
        CrawlError::MalformedResponse,
        CrawlError::PageDecodeError,
        CrawlError::ContextDecodeError,
        CrawlError::WorkerSpawnError,
    ];
    for e in recoverable {
        assert!(!e.is_fatal());
        assert!(e.is_recoverable());
    }
    assert!(CrawlError::StartupParseError.is_fatal());
}
