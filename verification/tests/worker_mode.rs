use scraper::errors::CrawlError;
use scraper::worker::CrawlConfig;
use scraper::worker::CrawlPhase;
use scraper::worker::WorkerCrawl;

/// Drives one worker crawl against an in-memory site. A url absent
/// from `site` counts as a failed fetch (timeout or transport error).
/// Returns every task that was actually fetched, in order.
fn drive(worker: &mut WorkerCrawl, site: &[(&str, &str)]) -> Vec<(String, u32)> {
    let mut fetched = Vec::new();
    worker.start();
    while let Some(task) = worker.next_fetch() {
        fetched.push((task.url.clone(), task.depth));
        match site.iter().find(|(u, _)| *u == task.url.as_str()) {
            Some((_, page)) => worker.on_fetch_success(page.to_string()),
            None => worker.on_fetch_failure(),
        }
    }
    fetched
}

fn page_of<'a>(worker: &'a WorkerCrawl, url: &str) -> Option<&'a String> {
    worker.results_so_far().get(url)
}

#[test]
fn end_to_end_depth_one() {
    let page_a = "<a href=\"http://b\">\n<a href=\"http://c\">";
    let site = [("http://a", page_a), ("http://b", "pageB"), ("http://c", "pageC")];
    let mut w = WorkerCrawl::new(CrawlConfig {
        seed_url: "http://a".to_string(),
        max_depth: 1,
    });
    let fetched = drive(&mut w, &site);

    assert_eq!(w.phase(), CrawlPhase::Done);
    assert_eq!(w.results_so_far().len(), 3);
    assert_eq!(page_of(&w, "http://a").unwrap().as_str(), page_a);
    assert_eq!(page_of(&w, "http://b").unwrap().as_str(), "pageB");
    assert_eq!(page_of(&w, "http://c").unwrap().as_str(), "pageC");
    // no task beyond the depth bound was ever dispatched
    assert!(fetched.iter().all(|(_, d)| *d <= 1));
    assert_eq!(fetched.len(), 3);
}

#[test]
fn links_are_enqueued_one_level_deeper() {
    let site = [
        ("http://a", "<a href=\"http://b\">"),
        ("http://b", "<a href=\"http://c\">"),
        ("http://c", "leaf"),
    ];
    let mut w = WorkerCrawl::new(CrawlConfig {
        seed_url: "http://a".to_string(),
        max_depth: 5,
    });
    let fetched = drive(&mut w, &site);
    assert_eq!(
        fetched,
        vec![
            ("http://a".to_string(), 0),
            ("http://b".to_string(), 1),
            ("http://c".to_string(), 2),
        ]
    );
}

#[test]
fn over_depth_tasks_are_discarded_unfetched() {
    // b is discovered at depth 2 with a bound of 1: never fetched
    let site = [
        ("http://a", "<a href=\"http://m\">"),
        ("http://m", "<a href=\"http://b\">"),
        ("http://b", "pageB"),
    ];
    let mut w = WorkerCrawl::new(CrawlConfig {
        seed_url: "http://a".to_string(),
        max_depth: 1,
    });
    let fetched = drive(&mut w, &site);
    assert_eq!(fetched.len(), 2);
    assert!(fetched.iter().all(|(u, _)| u != "http://b"));
    assert!(page_of(&w, "http://b").is_none());
}

#[test]
fn no_url_is_fetched_twice() {
    // a links to itself and to b; b links back to a
    let site = [
        ("http://a", "<a href=\"http://a\">\n<a href=\"http://b\">"),
        ("http://b", "<a href=\"http://a\">"),
    ];
    let mut w = WorkerCrawl::new(CrawlConfig {
        seed_url: "http://a".to_string(),
        max_depth: 10,
    });
    let fetched = drive(&mut w, &site);
    let a_count = fetched.iter().filter(|(u, _)| u == "http://a").count();
    assert_eq!(a_count, 1);
    assert_eq!(fetched.len(), 2);
}

#[test]
fn timeout_omits_the_url_and_the_rest_proceeds() {
    let page_a = "<a href=\"http://timeout\">\n<a href=\"http://ok\">";
    // http://timeout is missing from the site: its fetch fails
    let site = [("http://a", page_a), ("http://ok", "fine")];
    let mut w = WorkerCrawl::new(CrawlConfig {
        seed_url: "http://a".to_string(),
        max_depth: 1,
    });
    let fetched = drive(&mut w, &site);
    assert!(page_of(&w, "http://timeout").is_none());
    assert_eq!(page_of(&w, "http://ok").unwrap().as_str(), "fine");
    assert_eq!(w.results_so_far().len(), 2);
    // the failed task was attempted once and never requeued
    let t_count = fetched.iter().filter(|(u, _)| u == "http://timeout").count();
    assert_eq!(t_count, 1);
}

#[test]
fn malformed_bootstrap_is_fatal() {
    let err = match WorkerCrawl::from_bootstrap("not json at all") {
        Err(e) => e,
        Ok(_) => panic!("malformed bootstrap must not start a crawl"),
    };
    assert_eq!(err, CrawlError::StartupParseError);
    assert!(err.is_fatal());
    assert!(!err.is_recoverable());
}

#[test]
fn bootstrap_to_emitted_batch() {
    let w = WorkerCrawl::from_bootstrap("{\"url\":\"http://a\",\"depth\":0}");
    let mut w = w.expect("well-formed bootstrap");
    assert_eq!(w.seed_url().as_str(), "http://a");
    assert_eq!(w.max_depth(), 0);
    let site = [("http://a", "only page")];
    drive(&mut w, &site);
    assert_eq!(w.encode_result().as_str(), "{\"http://a\":\"only page\"}");
}

#[test]
fn empty_crawl_emits_empty_batch() {
    let mut w = WorkerCrawl::new(CrawlConfig {
        seed_url: "http://gone".to_string(),
        max_depth: 3,
    });
    let site: [(&str, &str); 0] = [];
    drive(&mut w, &site);
    assert_eq!(w.encode_result().as_str(), "{}");
}

#[test]
fn worker_drops_page_bytes_that_are_not_text() {
    let mut w = WorkerCrawl::new(CrawlConfig {
        seed_url: "http://a".to_string(),
        max_depth: 1,
    });
    w.start();
    let task = w.next_fetch().expect("seed task");
    assert_eq!(task.url.as_str(), "http://a");
    w.on_fetch_payload(vec![0xff, 0xfe, 0x00]);
    assert!(page_of(&w, "http://a").is_none());
    assert!(w.next_fetch().is_none());
}

#[test]
fn utf8_page_bytes_become_their_text() {
    let mut w = WorkerCrawl::new(CrawlConfig {
        seed_url: "http://a".to_string(),
        max_depth: 0,
    });
    w.start();
    let _ = w.next_fetch().expect("seed task");
    w.on_fetch_payload("caf\u{e9} page".as_bytes().to_vec());
    assert_eq!(page_of(&w, "http://a").unwrap().as_str(), "caf\u{e9} page");
}
