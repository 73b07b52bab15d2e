use murkmaw::model::Image;
use murkmaw::scraper::{
    is_success, join_texts, resolve, resolve_value, scrape, wants, Fetched, ScrapeOption,
    ScrapeResult,
};

const ALL: [ScrapeOption; 3] = [ScrapeOption::Links, ScrapeOption::Images, ScrapeOption::Titles];

fn text(s: &str) -> String {
    s.to_string()
}

fn ok(body: &str) -> Fetched {
    Fetched::Response { status: 200, body: text(body) }
}

#[test]
fn a_home_page_gives_its_link_image_and_title() {
    let body = "<html><head><title>Home</title></head><body>\
                <a href=\"https://a.test/b\">b</a><img src=\"/img.png\"></body></html>";
    let page = scrape("https://a.test/", &ok(body), &ALL);
    assert_eq!(page.links, vec![text("https://a.test/b")]);
    assert_eq!(page.images, vec![Image::new(text("https://a.test/img.png"), String::new())]);
    assert_eq!(page.titles, vec![text("Home")]);
}

#[test]
fn relative_addresses_resolve_against_the_page() {
    let body = "<a href=\"c.html\">c</a><a href=\"../up\">up</a><a href=\"/root\">r</a>\
                <a href=\"//other.test/x\">o</a><a href=\"#frag\">f</a><a href=\"?q=1\">q</a>";
    let page = scrape("https://a.test/dir/sub/page.html", &ok(body), &[ScrapeOption::Links]);
    assert_eq!(
        page.links,
        vec![
            text("https://a.test/dir/sub/c.html"),
            text("https://a.test/dir/up"),
            text("https://a.test/root"),
            text("https://other.test/x"),
            text("https://a.test/dir/sub/page.html#frag"),
            text("https://a.test/dir/sub/page.html?q=1"),
        ]
    );
}

#[test]
fn an_address_that_does_not_resolve_is_dropped() {
    let body = "<a href=\"https://[broken\">x</a><a href=\"/fine\">y</a><a>no href</a>\
                <a href=\"http://exa mple.test/\">z</a>";
    let page = scrape("https://a.test/", &ok(body), &ALL);
    assert_eq!(page.links, vec![text("https://a.test/fine")]);
}

#[test]
fn a_page_whose_own_address_is_no_url_keeps_absolute_links_only() {
    let body = "<a href=\"/relative\">r</a><a href=\"https://b.test/abs\">a</a>";
    let page = scrape("not a url", &ok(body), &ALL);
    assert_eq!(page.links, vec![text("https://b.test/abs")]);
}

#[test]
fn resolve_prefers_the_absolute_reading() {
    assert_eq!(resolve("https://a.test/x/y", "../z"), Some(text("https://a.test/z")));
    assert_eq!(resolve("https://a.test/x/y", "https://b.test"), Some(text("https://b.test/")));
    assert_eq!(resolve("https://a.test/x/y", "HTTPS://B.test/Path"), Some(text("https://b.test/Path")));
    assert_eq!(resolve("https://a.test/x/y", "mailto:me@a.test"), Some(text("mailto:me@a.test")));
    assert_eq!(resolve("https://a.test/x/y", "http:foo"), Some(text("http://foo/")));
    assert_eq!(resolve("mailto:me@a.test", "page"), None);
    assert_eq!(resolve("", "page"), None);
    assert_eq!(resolve("https://a.test/", "https://"), None);
    assert_eq!(resolve("https://a.test/", ""), Some(text("https://a.test/")));
}

#[test]
fn images_keep_their_alternative_text() {
    let body = "<img src=\"a.png\" alt=\"first\"><img alt=\"no source\">\
                <img src=\"https://cdn.test/b.jpg\"><img src=\"http://[bad\" alt=\"dropped\">\
                <img src=\"c.gif\" alt=\"\">";
    let page = scrape("https://a.test/gallery/", &ok(body), &ALL);
    assert_eq!(
        page.images,
        vec![
            Image::new(text("https://a.test/gallery/a.png"), text("first")),
            Image::new(text("https://cdn.test/b.jpg"), String::new()),
            Image::new(text("https://a.test/gallery/c.gif"), String::new()),
        ]
    );
    assert!(page.links.is_empty());
}

#[test]
fn titles_are_one_text_for_each_element() {
    let body = "<html><head><title>Page</title></head><body><h1>Big <em>news</em></h1>\
                <h3>skipped</h3><h2>Small</h2><h1></h1><p>text</p></body></html>";
    let page = scrape("https://a.test/", &ok(body), &ALL);
    assert_eq!(page.titles, vec![text("Page"), text("Big news"), text("Small"), String::new()]);
}

#[test]
fn images_and_titles_are_taken_only_on_request() {
    let body = "<title>T</title><a href=\"/l\">l</a><img src=\"/i.png\">";
    let none = scrape("https://a.test/", &ok(body), &[]);
    assert_eq!(none.links, vec![text("https://a.test/l")]);
    assert!(none.images.is_empty());
    assert!(none.titles.is_empty());
    let images = scrape("https://a.test/", &ok(body), &[ScrapeOption::Images]);
    assert_eq!(images.links, vec![text("https://a.test/l")]);
    assert_eq!(images.images.len(), 1);
    assert!(images.titles.is_empty());
    let titles = scrape("https://a.test/", &ok(body), &[ScrapeOption::Links, ScrapeOption::Titles]);
    assert_eq!(titles.links, vec![text("https://a.test/l")]);
    assert!(titles.images.is_empty());
    assert_eq!(titles.titles, vec![text("T")]);
}

#[test]
fn a_failed_fetch_contributes_nothing() {
    let page = scrape("https://a.test/", &Fetched::Failed, &ALL);
    assert_eq!(page, ScrapeResult::new());
    assert!(page.links.is_empty() && page.images.is_empty() && page.titles.is_empty());
}

#[test]
fn a_status_outside_the_two_hundreds_contributes_nothing() {
    let body = "<title>T</title><a href=\"/l\">l</a><img src=\"/i.png\">";
    for status in [0u16, 100, 199, 300, 301, 404, 500, 999, u16::MAX] {
        let page = scrape("https://a.test/", &Fetched::Response { status, body: text(body) }, &ALL);
        assert_eq!(page, ScrapeResult::new());
    }
    for status in [200u16, 201, 204, 299] {
        let page = scrape("https://a.test/", &Fetched::Response { status, body: text(body) }, &ALL);
        assert_eq!(page.links, vec![text("https://a.test/l")]);
    }
}

#[test]
fn success_is_two_hundred_to_two_ninety_nine() {
    assert!(!is_success(199));
    assert!(is_success(200));
    assert!(is_success(299));
    assert!(!is_success(300));
    assert!(!is_success(0));
}

#[test]
fn wants_looks_the_option_up() {
    assert!(wants(&ALL, ScrapeOption::Titles));
    assert!(wants(&[ScrapeOption::Images], ScrapeOption::Images));
    assert!(!wants(&[ScrapeOption::Images], ScrapeOption::Titles));
    assert!(!wants(&[], ScrapeOption::Links));
}

#[test]
fn results_are_built_by_pushing() {
    let mut page = ScrapeResult::new();
    page.push_link(None);
    page.push_link(Some(text("https://a.test/")));
    page.push_image(None, Some("lost"));
    page.push_image(Some(text("https://a.test/i.png")), None);
    page.push_image(Some(text("https://a.test/j.png")), Some("j"));
    page.push_title(text("T"));
    assert_eq!(page.links, vec![text("https://a.test/")]);
    assert_eq!(
        page.images,
        vec![
            Image::new(text("https://a.test/i.png"), String::new()),
            Image::new(text("https://a.test/j.png"), text("j")),
        ]
    );
    assert_eq!(page.titles, vec![text("T")]);
}

#[test]
fn an_empty_body_contributes_nothing() {
    let page = scrape("https://a.test/", &ok(""), &ALL);
    assert_eq!(page, ScrapeResult::new());
}

#[test]
fn text_nodes_are_joined_with_nothing_between() {
    assert_eq!(join_texts(&vec![]), "");
    assert_eq!(join_texts(&vec![text("Big ")]), "Big ");
    assert_eq!(join_texts(&vec![text("Big "), text("news"), String::new(), text("!")]), "Big news!");
}

#[test]
fn a_missing_attribute_resolves_to_nothing() {
    assert_eq!(resolve_value("https://a.test/x/", &None), None);
    assert_eq!(resolve_value("https://a.test/x/", &Some(text("y"))), Some(text("https://a.test/x/y")));
    assert_eq!(resolve_value("https://a.test/x/", &Some(text("http://[bad"))), None);
}

#[test]
fn only_the_named_elements_and_attributes_are_read() {
    let body = "<html><head><title>T</title><link href=\"/style.css\"></head><body>\
                <a name=\"here\" title=\"no link\">x</a><a href=\"/l\" title=\"/wrong\">l</a>\
                <img data-src=\"/lazy.png\" alt=\"lazy\"><img src=\"/i.png\" title=\"wrong\">\
                <area href=\"/area\"><h3>three</h3><p>p</p></body></html>";
    let page = scrape("https://a.test/", &ok(body), &ALL);
    assert_eq!(page.links, vec![text("https://a.test/l")]);
    assert_eq!(page.images, vec![Image::new(text("https://a.test/i.png"), String::new())]);
    assert_eq!(page.titles, vec![text("T")]);
}
