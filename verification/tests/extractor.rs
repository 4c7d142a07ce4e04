use scraper::extract::get_links;

fn links_of(page: &str) -> Vec<String> {
    get_links(page)
}

#[test]
fn anchor_href_is_extracted() {
    let links = links_of("<a href=\"http://a.com/x\">");
    assert_eq!(links, vec!["http://a.com/x".to_string()]);
}

#[test]
fn relative_href_is_skipped() {
    let links = links_of("href=\"relative/path\"");
    assert!(links.is_empty());
}

#[test]
fn line_order_is_kept() {
    let page = "<a href=\"http://one\">\nno link here\n<a href=\"http://two\">";
    let links = links_of(page);
    assert_eq!(links, vec!["http://one".to_string(), "http://two".to_string()]);
}

#[test]
fn only_first_match_per_line() {
    let page = "<a href=\"http://one\"> <a href=\"http://two\">";
    let links = links_of(page);
    assert_eq!(links, vec!["http://one".to_string()]);
}

#[test]
fn unterminated_quote_yields_nothing() {
    assert!(links_of("<a href=\"http://never-closed").is_empty());
}

#[test]
fn empty_page_yields_nothing() {
    assert!(links_of("").is_empty());
}

#[test]
fn https_scheme_is_accepted() {
    let links = links_of("<a href=\"https://secure\">");
    assert_eq!(links, vec!["https://secure".to_string()]);
}

#[test]
fn other_scheme_is_skipped() {
    assert!(links_of("<a href=\"ftp://files\">").is_empty());
}

#[test]
fn carriage_returns_do_not_join_lines() {
    let page = "<a href=\"http://one\">\r\n<a href=\"http://two\">\r\n";
    let links = links_of(page);
    assert_eq!(links, vec!["http://one".to_string(), "http://two".to_string()]);
}

#[test]
fn no_duplicate_suppression_in_extractor() {
    let page = "<a href=\"http://same\">\n<a href=\"http://same\">";
    let links = links_of(page);
    assert_eq!(
        links,
        vec!["http://same".to_string(), "http://same".to_string()]
    );
}
