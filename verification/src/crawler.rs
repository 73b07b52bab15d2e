//! The crawl coordinator: the shared state of a crawl and the decision that
//! a worker takes at each turn.
//!
//! A worker owns no state. It hands the coordinator what just happened and is
//! told what to do next: fetch a page, sleep, or stop. Fetching and sleeping
//! are the worker's business, and no lock need be held while it does either.

use std::collections::VecDeque;
use vstd::prelude::*;
use crate::model::graph_view::{GraphView, Merge};
use crate::model::link_graph::{GraphError, LinkGraph};
use crate::scraper::{parse_url, url_parse, ScrapeResult, ScrapeView};
use crate::text::same_text;

verus! {

/// Why the coordinator gave up.
#[derive(Debug, Clone, Copy, PartialEq, Eq, Structural)]
pub enum CrawlError {
    /// The seed is no absolute URL.
    InvalidSeed,
    /// The link graph refused a merge: the id generated for a new address
    /// belongs to another address already.
    DuplicateIdentity,
}

impl CrawlError {
    /// The error in words.
    pub fn message(&self) -> (text: String)
        ensures
            text@ == match *self {
                CrawlError::InvalidSeed => "the starting url is not an absolute url"@,
                CrawlError::DuplicateIdentity => "link already exists"@,
            },
    {
        match self {
            CrawlError::InvalidSeed => "the starting url is not an absolute url".to_owned(),
            CrawlError::DuplicateIdentity => "link already exists".to_owned(),
        }
    }
}

/// What a worker reports to the coordinator.
#[derive(Debug)]
pub enum CrawlEvent {
    /// The worker is free and asks for work.
    Ready,
    /// The worker slept because there was no work, and is awake again.
    Woke,
    /// The worker fetched and scraped the page `url`, which it had been sent
    /// to through `parent`.
    Fetched { parent: String, url: String, page: ScrapeResult },
}

/// The mathematical value of a [`CrawlEvent`].
pub enum EventView {
    Ready,
    Woke,
    Fetched { parent: Seq<char>, url: Seq<char>, page: ScrapeView },
}

impl View for CrawlEvent {
    type V = EventView;

    open spec fn view(&self) -> EventView {
        match self {
            CrawlEvent::Ready => EventView::Ready,
            CrawlEvent::Woke => EventView::Woke,
            CrawlEvent::Fetched { parent, url, page } => EventView::Fetched {
                parent: parent@,
                url: url@,
                page: page@,
            },
        }
    }
}

/// What the coordinator tells a worker to do.
#[derive(Debug, PartialEq, Eq)]
pub enum CrawlAction {
    /// Fetch and scrape the page `url`, which was found on `parent`, and
    /// report it.
    Fetch { parent: String, url: String },
    /// There is no work now: sleep a while and report back.
    Sleep,
    /// The crawl has reached its bound: stop.
    Stop,
}

/// The mathematical value of a [`CrawlAction`].
pub enum ActionView {
    Fetch { parent: Seq<char>, url: Seq<char> },
    Sleep,
    Stop,
}

impl View for CrawlAction {
    type V = ActionView;

    open spec fn view(&self) -> ActionView {
        match self {
            CrawlAction::Fetch { parent, url } => ActionView::Fetch { parent: parent@, url: url@ },
            CrawlAction::Sleep => ActionView::Sleep,
            CrawlAction::Stop => ActionView::Stop,
        }
    }
}

/// The mathematical value of a [`Crawler`]: the work that waits, each address
/// with the page it was found on, the graph, and the bound on its size.
pub struct CrawlerView {
    pub queue: Seq<(Seq<char>, Seq<char>)>,
    pub graph: GraphView,
    pub max_links: u64,
}

/// A state of the crawl and what the worker is told in it.
pub struct Outcome {
    pub state: CrawlerView,
    pub action: Result<ActionView, CrawlError>,
}

impl CrawlerView {
    /// The state in which a crawl starts: an empty graph, and the seed waiting
    /// with no page that it was found on.
    pub open spec fn start(seed: Seq<char>, max_links: u64) -> CrawlerView {
        CrawlerView {
            queue: seq![(Seq::empty(), seed)],
            graph: GraphView::empty(0),
            max_links,
        }
    }

    /// Whether the graph has reached the bound.
    pub open spec fn done(self) -> bool {
        self.graph.size() >= self.max_links
    }

    /// Whether `url` waits in the queue.
    pub open spec fn queued(self, url: Seq<char>) -> bool {
        exists|i: int| 0 <= i < self.queue.len() && (#[trigger] self.queue[i]).1 == url
    }

    /// The state after `link`, found on `parent`, was offered as work: it
    /// joins the queue at the end unless it is visited or waits already.
    pub open spec fn enqueue(self, parent: Seq<char>, link: Seq<char>) -> CrawlerView {
        if !self.graph.visited(link) && !self.queued(link) {
            CrawlerView {
                queue: self.queue.push((parent, link)),
                graph: self.graph,
                max_links: self.max_links,
            }
        } else {
            self
        }
    }

    /// The state after each of `links`, found on `parent`, was offered in turn.
    pub open spec fn enqueue_all(self, parent: Seq<char>, links: Seq<Seq<char>>) -> CrawlerView
        decreases links.len(),
    {
        if links.len() == 0 {
            self
        } else {
            self.enqueue_all(parent, links.drop_last()).enqueue(parent, links.last())
        }
    }

    /// Hands out work: the first address in the queue that is not visited
    /// leaves the queue to be fetched, and the visited ones before it are
    /// discarded. Where none is left the worker sleeps.
    pub open spec fn dispatch(self) -> Outcome
        decreases self.queue.len(),
    {
        if self.queue.len() == 0 {
            Outcome { state: self, action: Ok(ActionView::Sleep) }
        } else {
            let rest = CrawlerView {
                queue: self.queue.drop_first(),
                graph: self.graph,
                max_links: self.max_links,
            };
            if self.graph.visited(self.queue[0].1) {
                rest.dispatch()
            } else {
                Outcome {
                    state: rest,
                    action: Ok(ActionView::Fetch { parent: self.queue[0].0, url: self.queue[0].1 }),
                }
            }
        }
    }

    /// What the page `page` of `url`, reached through `parent`, contributes to
    /// the graph.
    pub open spec fn contribution(parent: Seq<char>, url: Seq<char>, page: ScrapeView) -> Merge {
        Merge { url, parent, children: page.links, images: page.images, titles: page.titles }
    }

    /// The state after a fetched page was merged and its links were offered as
    /// work.
    pub open spec fn record(self, parent: Seq<char>, url: Seq<char>, page: ScrapeView) -> CrawlerView {
        CrawlerView {
            queue: self.queue,
            graph: self.graph.merge(Self::contribution(parent, url, page)),
            max_links: self.max_links,
        }.enqueue_all(url, page.links)
    }

    /// One turn of a worker: the state after `event`, and what the worker is
    /// told.
    ///
    /// A worker that asks for work is handed some, or sleeps. One that wakes
    /// stops if the bound is reached, and else is handed work or sleeps again.
    /// One that reports a page has it merged and its links offered as work;
    /// then it stops if the bound is reached, and else is handed work or
    /// sleeps. If the graph refuses the merge, nothing changes and the worker
    /// gets the error.
    pub open spec fn step(self, event: EventView) -> Outcome {
        match event {
            EventView::Ready => self.dispatch(),
            EventView::Woke => if self.done() {
                Outcome { state: self, action: Ok(ActionView::Stop) }
            } else {
                self.dispatch()
            },
            EventView::Fetched { parent, url, page } => if self.graph.duplicate_identity(url) {
                Outcome { state: self, action: Err(CrawlError::DuplicateIdentity) }
            } else {
                let next = self.record(parent, url, page);
                if next.done() {
                    Outcome { state: next, action: Ok(ActionView::Stop) }
                } else {
                    next.dispatch()
                }
            },
        }
    }
}

/// Whether `action` sends a worker to fetch `url`.
pub open spec fn fetches(action: Result<ActionView, CrawlError>, url: Seq<char>) -> bool {
    match action {
        Ok(ActionView::Fetch { parent, url: target }) => target == url,
        _ => false,
    }
}

impl CrawlerView {
    /// The state after the workers' reports `events` were taken in, one after
    /// the other, in whatever order the workers made them.
    pub open spec fn run(self, events: Seq<EventView>) -> CrawlerView
        decreases events.len(),
    {
        if events.len() == 0 {
            self
        } else {
            self.run(events.drop_last()).step(events.last()).state
        }
    }

    /// Offering a link as work leaves the graph and the bound alone and keeps
    /// what waits in the queue; afterwards the link is visited or waits.
    pub proof fn lemma_enqueue(self, parent: Seq<char>, link: Seq<char>)
        ensures
            self.enqueue(parent, link).graph == self.graph,
            self.enqueue(parent, link).max_links == self.max_links,
            self.graph.visited(link) || self.enqueue(parent, link).queued(link),
            forall|w: Seq<char>| self.queued(w) ==> #[trigger] self.enqueue(parent, link).queued(w),
    {
        let after = self.enqueue(parent, link);
        if !self.graph.visited(link) && !self.queued(link) {
            assert(after.queue[self.queue.len() as int].1 == link);
        }
        assert forall|w: Seq<char>| self.queued(w) implies #[trigger] after.queued(w) by {
            let i = choose|i: int| 0 <= i < self.queue.len() && (#[trigger] self.queue[i]).1 == w;
            assert(after.queue[i].1 == w);
        }
    }

    /// Offering links as work leaves the graph and the bound alone and keeps
    /// what waits in the queue; afterwards each of the links is visited or
    /// waits.
    pub proof fn lemma_enqueue_all(self, parent: Seq<char>, links: Seq<Seq<char>>)
        ensures
            self.enqueue_all(parent, links).graph == self.graph,
            self.enqueue_all(parent, links).max_links == self.max_links,
            forall|k: int|
                0 <= k < links.len() ==> self.graph.visited(#[trigger] links[k])
                    || self.enqueue_all(parent, links).queued(links[k]),
            forall|w: Seq<char>|
                self.queued(w) ==> #[trigger] self.enqueue_all(parent, links).queued(w),
        decreases links.len(),
    {
        if links.len() > 0 {
            let most = self.enqueue_all(parent, links.drop_last());
            self.lemma_enqueue_all(parent, links.drop_last());
            most.lemma_enqueue(parent, links.last());
            let after = self.enqueue_all(parent, links);
            assert forall|k: int| 0 <= k < links.len() implies self.graph.visited(
                #[trigger] links[k],
            ) || after.queued(links[k]) by {
                if k < links.len() - 1 {
                    assert(links.drop_last()[k] == links[k]);
                    if most.queued(links[k]) {
                        assert(after.queued(links[k]));
                    }
                }
            }
            assert forall|w: Seq<char>| self.queued(w) implies #[trigger] after.queued(w) by {
                assert(most.queued(w));
            }
        }
    }

    /// Handing out work leaves the graph and the bound alone. The address
    /// handed out is not visited. The worker sleeps only where every address
    /// in the queue was visited.
    pub proof fn lemma_dispatch(self)
        ensures
            self.dispatch().state.graph == self.graph,
            self.dispatch().state.max_links == self.max_links,
            match self.dispatch().action {
                Ok(ActionView::Fetch { parent, url }) => !self.graph.visited(url) && self.queued(
                    url,
                ),
                Ok(ActionView::Sleep) => forall|w: Seq<char>|
                    #[trigger] self.queued(w) ==> self.graph.visited(w),
                _ => false,
            },
        decreases self.queue.len(),
    {
        if self.queue.len() > 0 {
            let rest = CrawlerView {
                queue: self.queue.drop_first(),
                graph: self.graph,
                max_links: self.max_links,
            };
            if self.graph.visited(self.queue[0].1) {
                rest.lemma_dispatch();
                match rest.dispatch().action {
                    Ok(ActionView::Fetch { parent, url }) => {
                        let i = choose|i: int|
                            0 <= i < rest.queue.len() && (#[trigger] rest.queue[i]).1 == url;
                        assert(self.queue[i + 1].1 == url);
                    },
                    Ok(ActionView::Sleep) => {
                        assert forall|w: Seq<char>| #[trigger] self.queued(w) implies self.graph.visited(
                            w,
                        ) by {
                            let i = choose|i: int|
                                0 <= i < self.queue.len() && (#[trigger] self.queue[i]).1 == w;
                            if i > 0 {
                                assert(rest.queue[i - 1].1 == w);
                                assert(rest.queued(w));
                            }
                        }
                    },
                    _ => {},
                }
            } else {
                assert(self.queue[0].1 == self.queue[0].1);
            }
        }
    }

    /// A turn keeps the graph well-formed, never shrinks it, keeps every
    /// visited address visited, and sends a worker only to an address that is
    /// not visited.
    pub proof fn lemma_step(self, event: EventView)
        requires
            self.graph.wf(),
        ensures
            self.step(event).state.graph.wf(),
            self.step(event).state.max_links == self.max_links,
            self.step(event).state.graph.size() >= self.graph.size(),
            forall|w: Seq<char>|
                self.graph.visited(w) ==> #[trigger] self.step(event).state.graph.visited(w),
            forall|w: Seq<char>|
                #[trigger] fetches(self.step(event).action, w) ==> !self.step(
                    event,
                ).state.graph.visited(w),
    {
        match event {
            EventView::Ready => {
                self.lemma_dispatch();
            },
            EventView::Woke => {
                self.lemma_dispatch();
            },
            EventView::Fetched { parent, url, page } => {
                if !self.graph.duplicate_identity(url) {
                    let m = Self::contribution(parent, url, page);
                    self.graph.lemma_apply(m);
                    let merged = CrawlerView {
                        queue: self.queue,
                        graph: self.graph.merge(m),
                        max_links: self.max_links,
                    };
                    merged.lemma_enqueue_all(url, page.links);
                    self.record(parent, url, page).lemma_dispatch();
                }
            },
        }
    }

    /// Once the bound is reached it stays reached, and every worker that
    /// reports after that, awake again or with a page, is told to stop unless
    /// the graph refuses its page.
    pub proof fn lemma_stop_when_done(self, event: EventView)
        requires
            self.graph.wf(),
            self.done(),
        ensures
            self.step(event).state.done(),
            event is Woke ==> self.step(event).action == Ok::<ActionView, CrawlError>(
                ActionView::Stop,
            ),
            event is Fetched ==> self.step(event).action == Ok::<ActionView, CrawlError>(
                ActionView::Stop,
            ) || self.step(event).action is Err,
    {
        self.lemma_step(event);
        if let EventView::Fetched { parent, url, page } = event {
            if !self.graph.duplicate_identity(url) {
                let m = Self::contribution(parent, url, page);
                self.graph.lemma_apply(m);
                let merged = CrawlerView {
                    queue: self.queue,
                    graph: self.graph.merge(m),
                    max_links: self.max_links,
                };
                merged.lemma_enqueue_all(url, page.links);
            }
        }
    }

    /// No duplicate fetch: once an address is visited, no worker is sent to
    /// fetch it again, whatever the workers report afterwards and in whatever
    /// order.
    pub proof fn lemma_no_duplicate_fetch(self, events: Seq<EventView>, url: Seq<char>)
        requires
            self.graph.wf(),
            self.graph.visited(url),
        ensures
            self.run(events).graph.wf(),
            self.run(events).graph.visited(url),
            events.len() > 0 ==> !fetches(
                self.run(events.drop_last()).step(events.last()).action,
                url,
            ),
        decreases events.len(),
    {
        if events.len() > 0 {
            self.lemma_no_duplicate_fetch(events.drop_last(), url);
            let before = self.run(events.drop_last());
            before.lemma_step(events.last());
            if fetches(before.step(events.last()).action, url) {
                assert(!before.step(events.last()).state.graph.visited(url));
                assert(before.step(events.last()).state.graph.visited(url));
            }
        }
    }
}

/// Whether `page`, the page of `url`, links to an address that is new in
/// `state`: another address than `url`, and not visited.
pub open spec fn links_onward(state: CrawlerView, url: Seq<char>, page: ScrapeView) -> bool {
    exists|k: int|
        0 <= k < page.links.len() && (#[trigger] page.links[k]) != url && !state.graph.visited(
            page.links[k],
        )
}

/// The number of nodes at which a crawl with the bound `max_links` stops: the
/// bound, and one node where the bound is zero, since the first page is
/// merged before the bound is looked at.
pub open spec fn stopping_size(max_links: u64) -> nat {
    if max_links == 0 {
        1
    } else {
        max_links as nat
    }
}

impl CrawlerView {
    /// The crawl of a single worker that starts in this state, asks for work
    /// and then fetches `pages` one after the other, each in reply to what it
    /// was told last: the state it ends in and what it is told there. A worker
    /// that was not told to fetch reports no further page.
    pub open spec fn crawl_alone(self, pages: Seq<ScrapeView>) -> Outcome
        decreases pages.len(),
    {
        if pages.len() == 0 {
            self.step(EventView::Ready)
        } else {
            let before = self.crawl_alone(pages.drop_last());
            match before.action {
                Ok(ActionView::Fetch { parent, url }) => before.state.step(
                    EventView::Fetched { parent, url, page: pages.last() },
                ),
                _ => before,
            }
        }
    }

    /// Whether `pages` come from a link farm: each of them, at the time a
    /// single worker fetches it, links to an address that is new.
    pub open spec fn is_link_farm(self, pages: Seq<ScrapeView>) -> bool {
        forall|k: int|
            #![trigger pages[k]]
            0 <= k < pages.len() ==> match self.crawl_alone(pages.take(k)).action {
                Ok(ActionView::Fetch { parent, url }) => links_onward(
                    self.crawl_alone(pages.take(k)).state,
                    url,
                    pages[k],
                ),
                _ => true,
            }
    }

    /// On a link farm a single worker that has fetched `count` pages has a
    /// graph of `count` nodes; it is sent on to a page that is not visited
    /// while the graph is below its stopping size, and told to stop when the
    /// graph has reached it.
    pub proof fn lemma_farm_progress(
        seed: Seq<char>,
        max_links: u64,
        pages: Seq<ScrapeView>,
        count: nat,
    )
        requires
            pages.len() == stopping_size(max_links),
            CrawlerView::start(seed, max_links).is_link_farm(pages),
            count <= pages.len(),
        ensures
            ({
                let reached = CrawlerView::start(seed, max_links).crawl_alone(
                    pages.take(count as int),
                );
                &&& reached.state.graph.wf()
                &&& reached.state.graph.size() == count
                &&& reached.state.graph.next_id == count
                &&& reached.state.max_links == max_links
                &&& if count < pages.len() {
                    exists|url: Seq<char>|
                        #[trigger] fetches(reached.action, url) && !reached.state.graph.visited(
                            url,
                        )
                } else {
                    reached.action == Ok::<ActionView, CrawlError>(ActionView::Stop)
                }
            }),
        decreases count,
    {
        let start = CrawlerView::start(seed, max_links);
        let reached = start.crawl_alone(pages.take(count as int));
        if count == 0 {
            assert(pages.take(0).len() == 0);
            start.lemma_dispatch();
            assert(!start.graph.visited(seed));
            assert(start.queue.drop_first().len() == 0);
            assert(fetches(reached.action, seed));
        } else {
            let fewer = (count - 1) as nat;
            Self::lemma_farm_progress(seed, max_links, pages, fewer);
            let taken = pages.take(count as int);
            assert(taken.drop_last() =~= pages.take(fewer as int));
            assert(taken.last() == pages[fewer as int]);
            let before = start.crawl_alone(pages.take(fewer as int));
            let target = choose|url: Seq<char>|
                #[trigger] fetches(before.action, url) && !before.state.graph.visited(url);
            match before.action {
                Ok(ActionView::Fetch { parent, url }) => {
                    assert(url == target);
                    let page = pages[fewer as int];
                    assert(links_onward(before.state, url, page));
                    let graph = before.state.graph;
                    assert(!graph.has_id(graph.next_id)) by {
                        if graph.has_id(graph.next_id) {
                            let i = choose|i: int|
                                0 <= i < graph.nodes.len() && (#[trigger] graph.nodes[i]).id
                                    == graph.next_id;
                            assert(graph.next_id == u64::MAX);
                        }
                    }
                    let m = Self::contribution(parent, url, page);
                    graph.lemma_register(url);
                    graph.lemma_merge(m);
                    let merged = CrawlerView {
                        queue: before.state.queue,
                        graph: graph.merge(m),
                        max_links,
                    };
                    merged.lemma_enqueue_all(url, page.links);
                    let recorded = before.state.record(parent, url, page);
                    assert(recorded.graph.size() == count);
                    if !recorded.done() {
                        recorded.lemma_dispatch();
                        let k = choose|k: int|
                            0 <= k < page.links.len() && (#[trigger] page.links[k]) != url
                                && !graph.visited(page.links[k]);
                        let onward = page.links[k];
                        assert(!recorded.graph.visited(onward));
                        assert(recorded.queued(onward));
                        match recorded.dispatch().action {
                            Ok(ActionView::Fetch { parent: from, url: next }) => {
                                assert(fetches(reached.action, next));
                            },
                            _ => {},
                        }
                    }
                },
                _ => {},
            }
        }
    }

    /// Bounded termination: on a link farm a single worker is sent from page
    /// to page, never sleeps, and is told to stop after it has fetched as many
    /// pages as the stopping size; the graph then has exactly that many nodes,
    /// which is no less than the bound.
    pub proof fn lemma_bounded_termination(seed: Seq<char>, max_links: u64, pages: Seq<ScrapeView>)
        requires
            pages.len() == stopping_size(max_links),
            CrawlerView::start(seed, max_links).is_link_farm(pages),
        ensures
            CrawlerView::start(seed, max_links).crawl_alone(pages).action == Ok::<
                ActionView,
                CrawlError,
            >(ActionView::Stop),
            CrawlerView::start(seed, max_links).crawl_alone(pages).state.graph.size()
                == stopping_size(max_links),
            CrawlerView::start(seed, max_links).crawl_alone(pages).state.graph.size() >= max_links,
            forall|count: int|
                #![trigger pages.take(count)]
                0 <= count < pages.len() ==> CrawlerView::start(seed, max_links).crawl_alone(
                    pages.take(count),
                ).action is Ok && CrawlerView::start(seed, max_links).crawl_alone(
                    pages.take(count),
                ).action->Ok_0 is Fetch,
    {
        Self::lemma_farm_progress(seed, max_links, pages, pages.len());
        assert(pages.take(pages.len() as int) =~= pages);
        assert forall|count: int| #![trigger pages.take(count)] 0 <= count < pages.len() implies {
            let told = CrawlerView::start(seed, max_links).crawl_alone(pages.take(count)).action;
            told is Ok && told->Ok_0 is Fetch
        } by {
            Self::lemma_farm_progress(seed, max_links, pages, count as nat);
        }
    }
}

/// The view of what the coordinator told a worker.
pub open spec fn told(action: Result<CrawlAction, CrawlError>) -> Result<ActionView, CrawlError> {
    match action {
        Ok(action) => Ok(action@),
        Err(e) => Err(e),
    }
}

/// The shared state of a crawl.
#[derive(Debug)]
pub struct Crawler {
    queue: VecDeque<(String, String)>,
    graph: LinkGraph,
    max_links: u64,
}

impl View for Crawler {
    type V = CrawlerView;

    closed spec fn view(&self) -> CrawlerView {
        CrawlerView {
            queue: self.queue.deep_view(),
            graph: self.graph@,
            max_links: self.max_links,
        }
    }
}

impl Crawler {
    /// A crawl that starts at `seed` with an empty graph and stops once the
    /// graph has `max_links` nodes. The seed must be an absolute URL; it is
    /// queued in its serialized form.
    pub fn new(seed: &str, max_links: u64) -> (crawler: Result<Crawler, CrawlError>)
        ensures
            match url_parse(seed@) {
                Some(address) => crawler is Ok && crawler->Ok_0@ == CrawlerView::start(
                    address,
                    max_links,
                ),
                None => crawler is Err && crawler->Err_0 == CrawlError::InvalidSeed,
            },
    {
        Crawler::with_graph(LinkGraph::new(), seed, max_links)
    }

    /// A crawl that starts at `seed` and merges into `graph`, which may hold
    /// nodes already and brings its own allocator of ids.
    pub fn with_graph(graph: LinkGraph, seed: &str, max_links: u64) -> (crawler: Result<
        Crawler,
        CrawlError,
    >)
        ensures
            match url_parse(seed@) {
                Some(address) => {
                    &&& crawler is Ok
                    &&& crawler->Ok_0@.queue == seq![(Seq::<char>::empty(), address)]
                    &&& crawler->Ok_0@.graph == graph@
                    &&& crawler->Ok_0@.max_links == max_links
                },
                None => crawler is Err && crawler->Err_0 == CrawlError::InvalidSeed,
            },
    {
        match parse_url(seed) {
            Some(address) => {
                let mut queue: VecDeque<(String, String)> = VecDeque::new();
                queue.push_back((String::new(), address));
                let crawler = Crawler { queue, graph, max_links };
                assert(crawler@.queue =~= seq![(Seq::<char>::empty(), address@)]);
                Ok(crawler)
            },
            None => Err(CrawlError::InvalidSeed),
        }
    }

    /// The graph as it stands.
    pub fn graph(&self) -> (graph: &LinkGraph)
        ensures
            graph@ == self@.graph,
    {
        &self.graph
    }

    /// Ends the crawl and hands out the graph.
    pub fn into_graph(self) -> (graph: LinkGraph)
        ensures
            graph@ == self@.graph,
    {
        self.graph
    }

    /// The number of nodes in the graph.
    pub fn visited_count(&self) -> (count: usize)
        ensures
            count == self@.graph.size(),
    {
        self.graph.len()
    }

    /// The number of addresses that wait in the queue.
    pub fn pending(&self) -> (count: usize)
        ensures
            count == self@.queue.len(),
    {
        self.queue.len()
    }

    /// The bound on the size of the graph.
    pub fn max_links(&self) -> (bound: u64)
        ensures
            bound == self@.max_links,
    {
        self.max_links
    }

    /// Whether the graph has reached the bound.
    pub fn is_done(&self) -> (done: bool)
        ensures
            done == self@.done(),
    {
        self.graph.len() as u64 >= self.max_links
    }

    /// Whether `url` waits in the queue.
    pub fn is_queued(&self, url: &str) -> (queued: bool)
        ensures
            queued == self@.queued(url@),
    {
        let mut i: usize = 0;
        while i < self.queue.len()
            invariant
                i <= self.queue@.len(),
                forall|j: int| 0 <= j < i ==> (#[trigger] self@.queue[j]).1 != url@,
            decreases self.queue@.len() - i,
        {
            if same_text(self.queue[i].1.as_str(), url) {
                assert(self@.queue[i as int].1 == url@);
                return true;
            }
            i += 1;
        }
        false
    }

    /// Offers `link`, found on `parent`, as work.
    fn enqueue(&mut self, parent: &str, link: &str)
        ensures
            final(self)@ == old(self)@.enqueue(parent@, link@),
    {
        if !self.graph.link_visited(link) && !self.is_queued(link) {
            let item = (parent.to_owned(), link.to_owned());
            self.queue.push_back(item);
            assert(self@.queue =~= old(self)@.queue.push((parent@, link@)));
        }
    }

    /// Hands out work.
    fn dispatch(&mut self) -> (action: CrawlAction)
        ensures
            final(self)@ == old(self)@.dispatch().state,
            Ok::<ActionView, CrawlError>(action@) == old(self)@.dispatch().action,
    {
        loop
            invariant
                self@.dispatch() == old(self)@.dispatch(),
            decreases self.queue@.len(),
        {
            let ghost before = self@;
            match self.queue.pop_front() {
                None => {
                    return CrawlAction::Sleep;
                },
                Some(item) => {
                    assert(self@.queue =~= before.queue.drop_first());
                    assert(before.queue[0] == (item.0@, item.1@));
                    if !self.graph.link_visited(item.1.as_str()) {
                        return CrawlAction::Fetch { parent: item.0, url: item.1 };
                    }
                },
            }
        }
    }

    /// One turn of a worker: takes in what the worker reports and tells it
    /// what to do next.
    pub fn crawl(&mut self, event: CrawlEvent) -> (action: Result<CrawlAction, CrawlError>)
        ensures
            final(self)@ == old(self)@.step(event@).state,
            told(action) == old(self)@.step(event@).action,
            old(self)@.graph.wf(),
            final(self)@.graph.wf(),
    {
        proof {
            use_type_invariant(&self.graph);
            self@.lemma_step(event@);
        }
        match event {
            CrawlEvent::Ready => Ok(self.dispatch()),
            CrawlEvent::Woke => {
                if self.is_done() {
                    Ok(CrawlAction::Stop)
                } else {
                    Ok(self.dispatch())
                }
            },
            CrawlEvent::Fetched { parent, url, page } => {
                let merged = self.graph.update(
                    url.as_str(),
                    parent.as_str(),
                    page.links.as_slice(),
                    page.images.as_slice(),
                    page.titles.as_slice(),
                );
                if let Err(_) = merged {
                    return Err(CrawlError::DuplicateIdentity);
                }
                let ghost merged_state = self@;
                let mut i: usize = 0;
                while i < page.links.len()
                    invariant
                        i <= page.links@.len(),
                        self@ == merged_state.enqueue_all(url@, page@.links.take(i as int)),
                    decreases page.links@.len() - i,
                {
                    let ghost prefix = page@.links.take(i + 1);
                    assert(prefix.drop_last() =~= page@.links.take(i as int));
                    assert(prefix.last() == page.links@[i as int]@);
                    self.enqueue(url.as_str(), page.links[i].as_str());
                    i += 1;
                }
                assert(page@.links.take(page.links@.len() as int) =~= page@.links);
                if self.is_done() {
                    Ok(CrawlAction::Stop)
                } else {
                    Ok(self.dispatch())
                }
            },
        }
    }
}

} // verus!
