use murkmaw::crawler::{CrawlAction, CrawlError, CrawlEvent, Crawler};
use murkmaw::model::{IdAllocator, Image, LinkGraph};
use murkmaw::scraper::{scrape, Fetched, ScrapeOption, ScrapeResult};

const ALL: [ScrapeOption; 3] = [ScrapeOption::Links, ScrapeOption::Images, ScrapeOption::Titles];

fn text(s: &str) -> String {
    s.to_string()
}

fn fetch(parent: &str, url: &str) -> CrawlAction {
    CrawlAction::Fetch { parent: text(parent), url: text(url) }
}

fn page_with_links(links: &[&str]) -> ScrapeResult {
    let mut page = ScrapeResult::new();
    for link in links {
        page.push_link(Some(text(link)));
    }
    page
}

fn fetched(parent: &str, url: &str, page: ScrapeResult) -> CrawlEvent {
    CrawlEvent::Fetched { parent: text(parent), url: text(url), page }
}

#[test]
fn a_seed_that_is_no_url_is_refused() {
    assert_eq!(Crawler::new("not a url", 10).err(), Some(CrawlError::InvalidSeed));
    assert_eq!(Crawler::new("", 10).err(), Some(CrawlError::InvalidSeed));
    assert_eq!(Crawler::new("/relative/path", 10).err(), Some(CrawlError::InvalidSeed));
    assert_eq!(
        CrawlError::InvalidSeed.message(),
        "the starting url is not an absolute url"
    );
    assert_eq!(CrawlError::DuplicateIdentity.message(), "link already exists");
}

#[test]
fn the_seed_is_queued_in_its_serialized_form() {
    let mut crawler = Crawler::new("HTTPS://A.test", 10).unwrap();
    assert_eq!(crawler.pending(), 1);
    assert_eq!(crawler.visited_count(), 0);
    assert_eq!(crawler.max_links(), 10);
    assert!(crawler.is_queued("https://a.test/"));
    assert!(!crawler.is_queued("HTTPS://A.test"));
    assert_eq!(crawler.crawl(CrawlEvent::Ready), Ok(fetch("", "https://a.test/")));
    assert_eq!(crawler.pending(), 0);
}

#[test]
fn a_two_page_site_is_crawled_to_its_bound() {
    let mut crawler = Crawler::new("https://a.test/", 2).unwrap();
    assert_eq!(crawler.crawl(CrawlEvent::Ready), Ok(fetch("", "https://a.test/")));
    let body = "<html><head><title>Home</title></head><body>\
                <a href=\"https://a.test/b\">b</a><img src=\"/img.png\"></body></html>";
    let home = scrape(
        "https://a.test/",
        &Fetched::Response { status: 200, body: text(body) },
        &ALL,
    );
    let next = crawler.crawl(fetched("", "https://a.test/", home));
    assert_eq!(next, Ok(fetch("https://a.test/", "https://a.test/b")));
    assert_eq!(crawler.visited_count(), 1);
    let other = scrape("https://a.test/b", &Fetched::Failed, &ALL);
    let last = crawler.crawl(fetched("https://a.test/", "https://a.test/b", other));
    assert_eq!(last, Ok(CrawlAction::Stop));
    let graph = crawler.graph();
    assert_eq!(graph.len(), 2);
    let a = graph.get("https://a.test/").unwrap();
    assert_eq!(a.images, vec![Image::new(text("https://a.test/img.png"), String::new())]);
    assert_eq!(a.titles, vec![text("Home")]);
    let b = graph.get("https://a.test/b").unwrap();
    assert_eq!(a.children, vec![b.id]);
    assert_eq!(b.parents, vec![a.id]);
    assert!(b.images.is_empty() && b.titles.is_empty());
}

#[test]
fn an_empty_queue_sends_the_worker_to_sleep() {
    let mut crawler = Crawler::new("https://a.test/", 5).unwrap();
    assert_eq!(crawler.crawl(CrawlEvent::Ready), Ok(fetch("", "https://a.test/")));
    assert_eq!(crawler.crawl(CrawlEvent::Ready), Ok(CrawlAction::Sleep));
    assert_eq!(crawler.crawl(CrawlEvent::Woke), Ok(CrawlAction::Sleep));
    assert_eq!(
        crawler.crawl(fetched("", "https://a.test/", page_with_links(&[]))),
        Ok(CrawlAction::Sleep)
    );
    assert_eq!(crawler.visited_count(), 1);
    assert!(!crawler.is_done());
    assert_eq!(crawler.crawl(CrawlEvent::Woke), Ok(CrawlAction::Sleep));
}

#[test]
fn a_worker_that_wakes_stops_once_the_bound_is_met() {
    let mut crawler = Crawler::new("https://a.test/", 1).unwrap();
    assert_eq!(crawler.crawl(CrawlEvent::Ready), Ok(fetch("", "https://a.test/")));
    assert_eq!(crawler.crawl(CrawlEvent::Woke), Ok(CrawlAction::Sleep));
    let page = page_with_links(&["https://a.test/b", "https://a.test/c"]);
    assert_eq!(crawler.crawl(fetched("", "https://a.test/", page)), Ok(CrawlAction::Stop));
    assert!(crawler.is_done());
    assert_eq!(crawler.pending(), 2);
    assert_eq!(crawler.crawl(CrawlEvent::Woke), Ok(CrawlAction::Stop));
    assert_eq!(crawler.pending(), 2);
    assert_eq!(crawler.into_graph().len(), 1);
}

#[test]
fn links_that_are_visited_or_queued_are_not_queued_again() {
    let mut crawler = Crawler::new("https://a.test/", 10).unwrap();
    crawler.crawl(CrawlEvent::Ready).unwrap();
    let page = page_with_links(&[
        "https://a.test/b",
        "https://a.test/",
        "https://a.test/b",
        "https://a.test/c",
        "https://a.test/c",
    ]);
    let next = crawler.crawl(fetched("", "https://a.test/", page)).unwrap();
    assert_eq!(next, fetch("https://a.test/", "https://a.test/b"));
    assert_eq!(crawler.pending(), 1);
    assert!(crawler.is_queued("https://a.test/c"));
    assert!(!crawler.is_queued("https://a.test/b"));
    assert!(!crawler.is_queued("https://a.test/"));
}

#[test]
fn a_visited_address_is_never_handed_out_again() {
    let mut crawler = Crawler::new("https://a.test/", 100).unwrap();
    assert_eq!(crawler.crawl(CrawlEvent::Ready), Ok(fetch("", "https://a.test/")));
    let page = page_with_links(&["https://a.test/b", "https://a.test/c"]);
    let first = crawler.crawl(fetched("", "https://a.test/", page)).unwrap();
    assert_eq!(first, fetch("https://a.test/", "https://a.test/b"));
    // A second worker takes c while the first is still busy with b.
    let second = crawler.crawl(CrawlEvent::Ready).unwrap();
    assert_eq!(second, fetch("https://a.test/", "https://a.test/c"));
    // Both pages link back to pages that the workers were already sent to.
    let from_c = page_with_links(&["https://a.test/b"]);
    let mut titled_b = page_with_links(&["https://a.test/"]);
    titled_b.push_title(text("B"));
    titled_b.push_image(Some(text("https://a.test/b.png")), None);
    // The first worker merges b before the second worker reports c.
    assert_eq!(
        crawler.crawl(fetched("https://a.test/", "https://a.test/b", titled_b)),
        Ok(CrawlAction::Sleep)
    );
    // b is visited now: the link from c to b is not queued, and nobody is sent to b again.
    assert_eq!(
        crawler.crawl(fetched("https://a.test/", "https://a.test/c", from_c)),
        Ok(CrawlAction::Sleep)
    );
    assert_eq!(crawler.crawl(CrawlEvent::Ready), Ok(CrawlAction::Sleep));
    let b = crawler.graph().get("https://a.test/b").unwrap();
    assert_eq!(b.titles, vec![text("B")]);
    assert_eq!(b.images.len(), 1);
    assert_eq!(crawler.visited_count(), 3);
}

#[test]
fn a_queued_address_that_was_merged_meanwhile_is_discarded() {
    let mut crawler = Crawler::new("https://a.test/", 100).unwrap();
    crawler.crawl(CrawlEvent::Ready).unwrap();
    let page = page_with_links(&["https://a.test/b", "https://a.test/c", "https://a.test/d"]);
    assert_eq!(
        crawler.crawl(fetched("", "https://a.test/", page)),
        Ok(fetch("https://a.test/", "https://a.test/b"))
    );
    // Another worker reports c, which it was never sent to by this queue.
    let mut c = ScrapeResult::new();
    c.push_title(text("C"));
    assert_eq!(
        crawler.crawl(fetched("https://a.test/", "https://a.test/c", c)),
        Ok(fetch("https://a.test/", "https://a.test/d"))
    );
    assert_eq!(crawler.pending(), 0);
    assert_eq!(crawler.graph().get("https://a.test/c").unwrap().titles, vec![text("C")]);
}

#[test]
fn a_link_farm_is_crawled_up_to_the_bound() {
    for bound in [0u64, 1, 2, 7, 40] {
        let mut crawler = Crawler::new("https://farm.test/0", bound).unwrap();
        let mut action = crawler.crawl(CrawlEvent::Ready).unwrap();
        let mut fetches = 0u64;
        let mut next_page = 1u64;
        loop {
            match action {
                CrawlAction::Stop => break,
                CrawlAction::Sleep => panic!("a link farm never runs dry"),
                CrawlAction::Fetch { parent, url } => {
                    fetches += 1;
                    assert!(fetches <= bound.max(1), "the crawl went past its bound");
                    let mut page = ScrapeResult::new();
                    for _ in 0..3 {
                        page.push_link(Some(format!("https://farm.test/{}", next_page)));
                        next_page += 1;
                    }
                    action = crawler.crawl(CrawlEvent::Fetched { parent, url, page }).unwrap();
                },
            }
        }
        assert_eq!(fetches, bound.max(1));
        assert_eq!(crawler.visited_count() as u64, bound.max(1));
        assert!(crawler.visited_count() as u64 >= bound);
        assert!(crawler.is_done());
    }
}

#[test]
fn several_workers_on_a_link_farm_all_stop() {
    let bound = 10u64;
    let mut crawler = Crawler::new("https://farm.test/0", bound).unwrap();
    let mut next_page = 1u64;
    let mut workers: Vec<Option<CrawlEvent>> =
        vec![Some(CrawlEvent::Ready), Some(CrawlEvent::Ready), Some(CrawlEvent::Ready)];
    let mut turns = 0;
    while workers.iter().any(|w| w.is_some()) {
        turns += 1;
        assert!(turns < 1000, "the workers did not stop");
        for worker in workers.iter_mut() {
            let event = match worker.take() {
                Some(event) => event,
                None => continue,
            };
            *worker = match crawler.crawl(event).unwrap() {
                CrawlAction::Stop => None,
                CrawlAction::Sleep => Some(CrawlEvent::Woke),
                CrawlAction::Fetch { parent, url } => {
                    let mut page = ScrapeResult::new();
                    for _ in 0..2 {
                        page.push_link(Some(format!("https://farm.test/{}", next_page)));
                        next_page += 1;
                    }
                    Some(CrawlEvent::Fetched { parent, url, page })
                },
            };
        }
    }
    let size = crawler.visited_count() as u64;
    assert!(size >= bound);
    assert!(size < bound + 3, "only the pages in flight may exceed the bound");
}

#[test]
fn the_same_address_queued_by_many_pages_is_merged_once() {
    let mut crawler = Crawler::new("https://a.test/", 100).unwrap();
    let mut action = crawler.crawl(CrawlEvent::Ready).unwrap();
    let mut merges_of_hub = 0;
    let mut steps = 0;
    loop {
        steps += 1;
        assert!(steps < 100);
        match action {
            CrawlAction::Fetch { parent, url } => {
                let mut page = ScrapeResult::new();
                if url == "https://a.test/hub" {
                    merges_of_hub += 1;
                    page.push_title(text("Hub"));
                    page.push_image(Some(text("https://a.test/hub.png")), Some("hub"));
                } else if url == "https://a.test/" {
                    for n in 0..5 {
                        page.push_link(Some(format!("https://a.test/{}", n)));
                    }
                }
                page.push_link(Some(text("https://a.test/hub")));
                action = crawler.crawl(CrawlEvent::Fetched { parent, url, page }).unwrap();
            },
            _ => break,
        }
    }
    assert_eq!(action, CrawlAction::Sleep);
    assert_eq!(merges_of_hub, 1);
    let hub = crawler.graph().get("https://a.test/hub").unwrap();
    assert_eq!(hub.titles, vec![text("Hub")]);
    assert_eq!(hub.images.len(), 1);
    assert_eq!(crawler.visited_count(), 7);
}

#[test]
fn a_refused_merge_is_reported_and_changes_nothing() {
    let graph = LinkGraph::with_allocator(IdAllocator::starting_at(u64::MAX));
    let mut crawler = Crawler::with_graph(graph, "https://a.test/", 10).unwrap();
    assert_eq!(crawler.crawl(CrawlEvent::Ready), Ok(fetch("", "https://a.test/")));
    let page = page_with_links(&["https://a.test/b"]);
    assert_eq!(
        crawler.crawl(fetched("", "https://a.test/", page)),
        Ok(fetch("https://a.test/", "https://a.test/b"))
    );
    let lost = page_with_links(&["https://a.test/c"]);
    assert_eq!(
        crawler.crawl(fetched("https://a.test/", "https://a.test/b", lost)),
        Err(CrawlError::DuplicateIdentity)
    );
    assert_eq!(crawler.visited_count(), 1);
    assert_eq!(crawler.pending(), 0);
    assert!(!crawler.is_queued("https://a.test/c"));
    assert!(!crawler.graph().link_visited("https://a.test/b"));
}

#[test]
fn a_crawl_can_go_on_in_a_graph_that_has_nodes() {
    let mut graph = LinkGraph::new();
    graph.update("https://a.test/", "", &[], &[], &[]).unwrap();
    let mut crawler = Crawler::with_graph(graph, "https://a.test/", 3).unwrap();
    assert_eq!(crawler.visited_count(), 1);
    assert_eq!(crawler.crawl(CrawlEvent::Ready), Ok(CrawlAction::Sleep));
    assert_eq!(
        Crawler::with_graph(LinkGraph::new(), "nothing", 3).err(),
        Some(CrawlError::InvalidSeed)
    );
}
