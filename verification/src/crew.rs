//! Several workers on one coordinator: what holds of a crawl whatever the
//! order in which the workers take their turns.

use vstd::prelude::*;
use crate::crawler::{ActionView, CrawlError, CrawlerView, EventView};
use crate::scraper::ScrapeView;

verus! {

/// What a worker was told last: nothing yet, or an action, or an error.
pub type Told = Option<Result<ActionView, CrawlError>>;

/// The address that a worker is fetching, if it was told to fetch.
pub open spec fn target(told: Told) -> Option<Seq<char>> {
    match told {
        Some(Ok(ActionView::Fetch { parent, url })) => Some(url),
        _ => None,
    }
}

/// One turn: the worker whose report the coordinator takes in next, and the
/// page that this worker reports if it was fetching.
pub struct Turn {
    pub worker: int,
    pub page: ScrapeView,
}

/// The coordinator's state together with what each worker was told last.
pub struct CrewView {
    pub state: CrawlerView,
    pub workers: Seq<Told>,
}

impl CrewView {
    /// A crawl at its start, with `workers` workers that have not asked for
    /// work yet.
    pub open spec fn start(seed: Seq<char>, max_links: u64, workers: nat) -> CrewView {
        CrewView {
            state: CrawlerView::start(seed, max_links),
            workers: Seq::new(workers, |w: int| None),
        }
    }

    /// What the worker of `turn` reports: that it is ready if it has not asked
    /// yet, its page if it was fetching, that it woke if it was sleeping, and
    /// nothing if it has stopped or is no worker of this crawl.
    pub open spec fn report(self, turn: Turn) -> Option<EventView> {
        if 0 <= turn.worker < self.workers.len() {
            match self.workers[turn.worker] {
                None => Some(EventView::Ready),
                Some(Ok(ActionView::Fetch { parent, url })) => Some(
                    EventView::Fetched { parent, url, page: turn.page },
                ),
                Some(Ok(ActionView::Sleep)) => Some(EventView::Woke),
                _ => None,
            }
        } else {
            None
        }
    }

    /// The crawl after `turn`: the coordinator has taken in the worker's
    /// report, and the worker has been told what to do next.
    pub open spec fn turn(self, turn: Turn) -> CrewView {
        match self.report(turn) {
            Some(event) => CrewView {
                state: self.state.step(event).state,
                workers: self.workers.update(turn.worker, Some(self.state.step(event).action)),
            },
            None => self,
        }
    }

    /// The crawl after `turns`, one after the other.
    pub open spec fn play(self, turns: Seq<Turn>) -> CrewView
        decreases turns.len(),
    {
        if turns.len() == 0 {
            self
        } else {
            self.play(turns.drop_last()).turn(turns.last())
        }
    }

    /// The number of pages that the workers report in `turns`.
    pub open spec fn pages(self, turns: Seq<Turn>) -> nat
        decreases turns.len(),
    {
        if turns.len() == 0 {
            0
        } else if self.play(turns.drop_last()).report(turns.last()) is Some && self.play(
            turns.drop_last(),
        ).report(turns.last())->0 is Fetched {
            self.pages(turns.drop_last()) + 1
        } else {
            self.pages(turns.drop_last())
        }
    }

    /// Whether some worker is fetching `url`.
    pub open spec fn fetching(self, url: Seq<char>) -> bool {
        exists|w: int| 0 <= w < self.workers.len() && target(#[trigger] self.workers[w]) == Some(url)
    }

    /// Whether some worker is fetching.
    pub open spec fn busy(self) -> bool {
        exists|w: int| 0 <= w < self.workers.len() && target(#[trigger] self.workers[w]) is Some
    }

    /// Whether the page reported in `turn`, if one is, comes from a link
    /// farm: it links to at least one address, and to none that was seen
    /// before, be it visited, waiting in the queue or being fetched.
    pub open spec fn links_to_new_pages(self, turn: Turn) -> bool {
        self.report(turn) is Some && self.report(turn)->0 is Fetched ==> {
            &&& turn.page.links.len() >= 1
            &&& forall|k: int|
                0 <= k < turn.page.links.len() ==> {
                    &&& !self.state.graph.visited(#[trigger] turn.page.links[k])
                    &&& !self.state.queued(turn.page.links[k])
                    &&& !self.fetching(turn.page.links[k])
                }
        }
    }

    /// Whether every page reported in `turns` comes from a link farm.
    pub open spec fn on_link_farm(self, turns: Seq<Turn>) -> bool {
        forall|k: int|
            #![trigger turns[k]]
            0 <= k < turns.len() ==> self.play(turns.take(k)).links_to_new_pages(turns[k])
    }

    /// What holds throughout a crawl on a link farm: the graph is well-formed
    /// and its ids count up from zero; what waits in the queue is not visited
    /// and waits once; what is being fetched is not visited, does not wait,
    /// and is fetched by one worker; and, below the bound, there is work in
    /// the queue or a worker is fetching.
    pub open spec fn sound(self) -> bool {
        &&& self.state.graph.wf()
        &&& self.state.graph.next_id == self.state.graph.size()
        &&& clean_queue(self.state)
        &&& forall|w: int|
            0 <= w < self.workers.len() ==> apart(self.state, self.workers, w, self.workers.len() as int)
        &&& (self.state.done() || self.state.queue.len() > 0 || self.busy())
    }
}

/// Whether the worker `w`, if it is fetching, fetches an address that is not
/// visited, does not wait in the queue, and is fetched by no other worker
/// than `except`.
pub open spec fn apart(state: CrawlerView, workers: Seq<Told>, w: int, except: int) -> bool {
    target(workers[w]) is Some ==> {
        &&& !state.graph.visited(target(workers[w])->0)
        &&& !state.queued(target(workers[w])->0)
        &&& forall|v: int|
            0 <= v < workers.len() && v != w && v != except ==> target(#[trigger] workers[v])
                != target(workers[w])
    }
}

/// Whether nothing that waits in the queue of `state` is visited, and nothing
/// waits twice.
pub open spec fn clean_queue(state: CrawlerView) -> bool {
    &&& forall|i: int|
        0 <= i < state.queue.len() ==> !state.graph.visited((#[trigger] state.queue[i]).1)
    &&& forall|i: int, j: int|
        0 <= i < j < state.queue.len() ==> (#[trigger] state.queue[i]).1 != (
        #[trigger] state.queue[j]).1
}

/// Offering links that are not visited keeps the queue clean, keeps what
/// waited, and adds nothing but those links; afterwards each of them waits.
pub proof fn lemma_enqueue_new(state: CrawlerView, parent: Seq<char>, links: Seq<Seq<char>>)
    requires
        clean_queue(state),
        forall|k: int| 0 <= k < links.len() ==> !state.graph.visited(#[trigger] links[k]),
    ensures
        ({
            let after = state.enqueue_all(parent, links);
            &&& after.graph == state.graph
            &&& after.max_links == state.max_links
            &&& clean_queue(after)
            &&& after.queue.len() >= state.queue.len()
            &&& forall|i: int|
                0 <= i < state.queue.len() ==> #[trigger] after.queue[i] == state.queue[i]
            &&& forall|i: int|
                state.queue.len() <= i < after.queue.len() ==> links.contains(
                    (#[trigger] after.queue[i]).1,
                )
            &&& forall|k: int| 0 <= k < links.len() ==> after.queued(#[trigger] links[k])
        }),
    decreases links.len(),
{
    if links.len() > 0 {
        let most = state.enqueue_all(parent, links.drop_last());
        assert forall|k: int| 0 <= k < links.drop_last().len() implies !state.graph.visited(
            #[trigger] links.drop_last()[k],
        ) by {
            assert(links.drop_last()[k] == links[k]);
        }
        lemma_enqueue_new(state, parent, links.drop_last());
        most.lemma_enqueue(parent, links.last());
        let after = state.enqueue_all(parent, links);
        let last = links.last();
        assert(!most.graph.visited(last)) by {
            assert(links[links.len() - 1] == last);
        }
        assert forall|i: int| state.queue.len() <= i < after.queue.len() implies links.contains(
            (#[trigger] after.queue[i]).1,
        ) by {
            if i < most.queue.len() {
                assert(after.queue[i] == most.queue[i]);
                let k = choose|k: int|
                    0 <= k < links.drop_last().len() && links.drop_last()[k] == most.queue[i].1;
                assert(links[k] == most.queue[i].1);
            } else {
                assert(after.queue[i].1 == last);
                assert(links[links.len() - 1] == last);
            }
        }
        assert forall|k: int| 0 <= k < links.len() implies after.queued(#[trigger] links[k]) by {
            if k < links.len() - 1 {
                assert(links.drop_last()[k] == links[k]);
                assert(most.queued(links[k]));
            }
        }
        assert(clean_queue(after)) by {
            assert forall|i: int, j: int| 0 <= i < j < after.queue.len() implies (
            #[trigger] after.queue[i]).1 != (#[trigger] after.queue[j]).1 by {
                if j >= most.queue.len() {
                    assert(!most.queued(last));
                    assert(most.queue[i].1 != last);
                }
            }
        }
    }
}

/// What holds of the crawl while the worker `w` is being answered: all that
/// `sound` asks for, but for what `w` itself was told last.
pub open spec fn sound_but_for(state: CrawlerView, workers: Seq<Told>, w: int) -> bool {
    &&& 0 <= w < workers.len()
    &&& state.graph.wf()
    &&& state.graph.next_id == state.graph.size()
    &&& clean_queue(state)
    &&& forall|v: int| 0 <= v < workers.len() && v != w ==> apart(state, workers, v, w)
}

/// Whether some other worker than `w` is fetching.
pub open spec fn others_busy(workers: Seq<Told>, w: int) -> bool {
    exists|v: int| 0 <= v < workers.len() && v != w && target(#[trigger] workers[v]) is Some
}

/// Handing out work to a worker keeps the crawl sound.
pub proof fn lemma_hand_out(state: CrawlerView, workers: Seq<Told>, w: int)
    requires
        sound_but_for(state, workers, w),
        state.done() || state.queue.len() > 0 || others_busy(workers, w),
    ensures
        state.dispatch().action is Ok,
        state.dispatch().state.graph == state.graph,
        state.dispatch().state.max_links == state.max_links,
        (CrewView {
            state: state.dispatch().state,
            workers: workers.update(w, Some(state.dispatch().action)),
        }).sound(),
        state.dispatch().action == Ok::<ActionView, CrawlError>(ActionView::Sleep)
            ==> state.queue.len() == 0,
{
    let told = state.dispatch();
    let after = CrewView { state: told.state, workers: workers.update(w, Some(told.action)) };
    if state.queue.len() == 0 {
        assert forall|v: int| 0 <= v < after.workers.len() implies apart(
            after.state,
            after.workers,
            v,
            after.workers.len() as int,
        ) by {
            if v != w {
                assert(apart(state, workers, v, w));
            }
        }
        if !state.done() {
            let v = choose|v: int|
                0 <= v < workers.len() && v != w && target(#[trigger] workers[v]) is Some;
            assert(target(after.workers[v]) is Some);
        }
    } else {
        let first = state.queue[0];
        assert(!state.graph.visited(first.1));
        let rest = state.queue.drop_first();
        assert(told.state.queue == rest);
        assert forall|i: int| 0 <= i < rest.len() implies (#[trigger] rest[i]) == state.queue[i
            + 1] by {}
        assert(clean_queue(after.state)) by {
            assert forall|i: int| 0 <= i < rest.len() implies !after.state.graph.visited(
                (#[trigger] rest[i]).1,
            ) by {
                assert(rest[i] == state.queue[i + 1]);
            }
            assert forall|i: int, j: int| 0 <= i < j < rest.len() implies (#[trigger] rest[i]).1
                != (#[trigger] rest[j]).1 by {
                assert(rest[i] == state.queue[i + 1]);
                assert(rest[j] == state.queue[j + 1]);
            }
        }
        assert forall|x: Seq<char>| after.state.queued(x) implies state.queued(x) by {
            let i = choose|i: int| 0 <= i < rest.len() && (#[trigger] rest[i]).1 == x;
            assert(state.queue[i + 1].1 == x);
        }
        assert(!after.state.queued(first.1)) by {
            if after.state.queued(first.1) {
                let i = choose|i: int| 0 <= i < rest.len() && (#[trigger] rest[i]).1 == first.1;
                assert(state.queue[i + 1].1 == state.queue[0].1);
            }
        }
        assert(state.queued(first.1));
        assert(target(after.workers[w]) == Some(first.1));
        assert forall|v: int| 0 <= v < after.workers.len() implies apart(
            after.state,
            after.workers,
            v,
            after.workers.len() as int,
        ) by {
            if v != w {
                assert(apart(state, workers, v, w));
                if target(workers[v]) is Some {
                    assert(target(workers[v]) != Some(first.1));
                    assert forall|u: int|
                        0 <= u < after.workers.len() && u != v implies target(
                        #[trigger] after.workers[u],
                    ) != target(after.workers[v]) by {
                        if u != w {
                            assert(after.workers[u] == workers[u]);
                        }
                    }
                }
            } else {
                assert forall|u: int|
                    0 <= u < after.workers.len() && u != w implies target(
                    #[trigger] after.workers[u],
                ) != target(after.workers[w]) by {
                    assert(apart(state, workers, u, w));
                }
            }
        }
        assert(target(after.workers[w]) is Some);
        assert(after.busy());
    }
}

/// Telling a worker to stop once the bound is reached keeps the crawl sound.
pub proof fn lemma_stop(state: CrawlerView, workers: Seq<Told>, w: int)
    requires
        sound_but_for(state, workers, w),
        state.done(),
    ensures
        (CrewView { state, workers: workers.update(w, Some(Ok(ActionView::Stop))) }).sound(),
{
    let after = CrewView { state, workers: workers.update(w, Some(Ok(ActionView::Stop))) };
    assert forall|v: int| 0 <= v < after.workers.len() implies apart(
        after.state,
        after.workers,
        v,
        after.workers.len() as int,
    ) by {
        if v != w {
            assert(apart(state, workers, v, w));
            if target(workers[v]) is Some {
                assert forall|u: int|
                    0 <= u < after.workers.len() && u != v implies target(
                    #[trigger] after.workers[u],
                ) != target(after.workers[v]) by {
                    if u != w {
                        assert(after.workers[u] == workers[u]);
                    }
                }
            }
        }
    }
}

impl CrewView {
    /// One turn on a link farm keeps the crawl sound. A page that is reported
    /// adds exactly one node. No worker is answered with an error. Once the
    /// bound is reached, a worker that wakes or reports a page is told to
    /// stop. Below the bound, a worker is sent to sleep only while another
    /// worker is fetching.
    pub proof fn lemma_turn(self, turn: Turn)
        requires
            self.sound(),
            self.links_to_new_pages(turn),
            self.state.graph.size() < u64::MAX,
        ensures
            self.turn(turn).sound(),
            self.turn(turn).workers.len() == self.workers.len(),
            self.turn(turn).state.max_links == self.state.max_links,
            self.turn(turn).state.graph.size() == if self.report(turn) is Some && self.report(
                turn,
            )->0 is Fetched {
                self.state.graph.size() + 1
            } else {
                self.state.graph.size()
            },
            self.report(turn) is Some ==> self.turn(turn).workers[turn.worker] is Some
                && self.turn(turn).workers[turn.worker]->0 is Ok,
            self.report(turn) is Some && !(self.report(turn)->0 is Ready) && self.state.done()
                ==> self.turn(turn).workers[turn.worker] == Some(
                Ok::<ActionView, CrawlError>(ActionView::Stop),
            ),
            self.report(turn) is Some && !self.turn(turn).state.done() && self.turn(
                turn,
            ).workers[turn.worker] == Some(Ok::<ActionView, CrawlError>(ActionView::Sleep))
                ==> others_busy(self.turn(turn).workers, turn.worker),
    {
        let w = turn.worker;
        let state = self.state;
        let workers = self.workers;
        if self.report(turn) is Some {
            assert forall|v: int| 0 <= v < workers.len() && v != w implies apart(
                state,
                workers,
                v,
                w,
            ) by {
                assert(apart(state, workers, v, workers.len() as int));
            }
            match self.report(turn)->0 {
                EventView::Ready => {
                    assert(target(workers[w]) is None);
                    if !state.done() && state.queue.len() == 0 {
                        let v = choose|v: int|
                            0 <= v < workers.len() && target(#[trigger] workers[v]) is Some;
                        assert(v != w);
                    }
                    lemma_hand_out(state, workers, w);
                },
                EventView::Woke => {
                    assert(target(workers[w]) is None);
                    if state.done() {
                        lemma_stop(state, workers, w);
                    } else {
                        if state.queue.len() == 0 {
                            let v = choose|v: int|
                                0 <= v < workers.len() && target(#[trigger] workers[v]) is Some;
                            assert(v != w);
                        }
                        lemma_hand_out(state, workers, w);
                    }
                },
                EventView::Fetched { parent, url, page } => {
                    assert(target(workers[w]) == Some(url));
                    assert(apart(state, workers, w, workers.len() as int));
                    assert(self.fetching(url));
                    let graph = state.graph;
                    assert(!graph.has_id(graph.next_id)) by {
                        if graph.has_id(graph.next_id) {
                            let i = choose|i: int|
                                0 <= i < graph.nodes.len() && (#[trigger] graph.nodes[i]).id
                                    == graph.next_id;
                            assert(graph.next_id == u64::MAX);
                        }
                    }
                    let m = CrawlerView::contribution(parent, url, page);
                    graph.lemma_register(url);
                    graph.lemma_merge(m);
                    let merged = CrawlerView {
                        queue: state.queue,
                        graph: graph.merge(m),
                        max_links: state.max_links,
                    };
                    assert(clean_queue(merged)) by {
                        assert forall|i: int| 0 <= i < merged.queue.len() implies !merged.graph.visited(
                            (#[trigger] merged.queue[i]).1,
                        ) by {
                            assert(state.queued(state.queue[i].1));
                        }
                    }
                    assert forall|k: int| 0 <= k < page.links.len() implies !merged.graph.visited(
                        #[trigger] page.links[k],
                    ) by {
                        assert(!self.fetching(page.links[k]));
                    }
                    lemma_enqueue_new(merged, url, page.links);
                    let recorded = state.record(parent, url, page);
                    assert(recorded == merged.enqueue_all(url, page.links));
                    assert(recorded.queued(page.links[0]));
                    assert(recorded.queue.len() > 0);
                    assert(sound_but_for(recorded, workers, w)) by {
                        assert forall|v: int| 0 <= v < workers.len() && v != w implies apart(
                            recorded,
                            workers,
                            v,
                            w,
                        ) by {
                            assert(apart(state, workers, v, w));
                            if target(workers[v]) is Some {
                                let aim = target(workers[v])->0;
                                assert(aim != url) by {
                                    assert(apart(state, workers, v, workers.len() as int));
                                }
                                if recorded.queued(aim) {
                                    let i = choose|i: int|
                                        0 <= i < recorded.queue.len() && (
                                        #[trigger] recorded.queue[i]).1 == aim;
                                    if i < state.queue.len() {
                                        assert(recorded.queue[i] == state.queue[i]);
                                        assert(state.queued(aim));
                                    } else {
                                        assert(page.links.contains(aim));
                                        let k = choose|k: int|
                                            0 <= k < page.links.len() && page.links[k] == aim;
                                        assert(!self.fetching(page.links[k]));
                                        assert(self.fetching(aim));
                                    }
                                }
                            }
                        }
                    }
                    if recorded.done() {
                        lemma_stop(recorded, workers, w);
                    } else {
                        lemma_hand_out(recorded, workers, w);
                    }
                },
            }
            let after = self.turn(turn);
            if !after.state.done() && after.workers[w] == Some(
                Ok::<ActionView, CrawlError>(ActionView::Sleep),
            ) {
                assert(after.state.queue.len() == 0);
                let v = choose|v: int|
                    0 <= v < after.workers.len() && target(#[trigger] after.workers[v]) is Some;
                assert(v != w);
            }
        }
    }
}

impl CrewView {
    /// Progress on a link farm, for any number of workers and whatever the
    /// order of their turns: the crawl stays sound, every page that a worker
    /// reports adds exactly one node, and so the bound is reached as soon as
    /// as many pages were reported as the bound asks for. The turns are fewer
    /// than there are ids to give out.
    pub proof fn lemma_farm_grows(seed: Seq<char>, max_links: u64, workers: nat, turns: Seq<Turn>)
        requires
            turns.len() < u64::MAX,
            CrewView::start(seed, max_links, workers).on_link_farm(turns),
        ensures
            CrewView::start(seed, max_links, workers).play(turns).sound(),
            CrewView::start(seed, max_links, workers).play(turns).workers.len() == workers,
            CrewView::start(seed, max_links, workers).play(turns).state.max_links == max_links,
            CrewView::start(seed, max_links, workers).play(turns).state.graph.size()
                == CrewView::start(seed, max_links, workers).pages(turns),
            CrewView::start(seed, max_links, workers).pages(turns) <= turns.len(),
            CrewView::start(seed, max_links, workers).pages(turns) >= max_links
                ==> CrewView::start(seed, max_links, workers).play(turns).state.done(),
        decreases turns.len(),
    {
        let start = CrewView::start(seed, max_links, workers);
        if turns.len() == 0 {
            assert(!start.state.graph.visited(seed));
            assert(start.state.queue[0].1 == seed);
            assert(clean_queue(start.state));
            assert(start.sound());
        } else {
            let earlier = turns.drop_last();
            assert forall|k: int| #![trigger earlier[k]] 0 <= k < earlier.len() implies start.play(
                earlier.take(k),
            ).links_to_new_pages(earlier[k]) by {
                assert(earlier.take(k) =~= turns.take(k));
                assert(earlier[k] == turns[k]);
            }
            Self::lemma_farm_grows(seed, max_links, workers, earlier);
            assert(turns.take(turns.len() - 1) =~= earlier);
            assert(start.play(earlier).links_to_new_pages(turns[turns.len() - 1]));
            start.play(earlier).lemma_turn(turns.last());
        }
    }

    /// Termination on a link farm, for any number of workers and whatever the
    /// order of their turns. No turn ends in an error. Once the bound is
    /// reached, the worker that wakes or reports a page in the next turn is
    /// told to stop, so every worker stops at its next report, or at the one
    /// after if it had not asked for work yet. And below the bound a worker is
    /// sent to sleep only while another worker is fetching, whose page will
    /// bring new work: no worker waits on a crawl in which nothing is under
    /// way. The turns are fewer than there are ids to give out.
    pub proof fn lemma_workers_stop(
        seed: Seq<char>,
        max_links: u64,
        workers: nat,
        turns: Seq<Turn>,
        next: Turn,
    )
        requires
            turns.len() + 1 < u64::MAX,
            CrewView::start(seed, max_links, workers).on_link_farm(turns.push(next)),
        ensures
            ({
                let now = CrewView::start(seed, max_links, workers).play(turns);
                let then = now.turn(next);
                &&& then == CrewView::start(seed, max_links, workers).play(turns.push(next))
                &&& now.report(next) is None ==> then == now
                &&& now.report(next) is Some ==> then.workers[next.worker] is Some
                    && then.workers[next.worker]->0 is Ok
                &&& now.state.done() ==> then.state.done()
                &&& now.state.done() && now.report(next) is Some && !(now.report(next)->0 is Ready)
                    ==> then.workers[next.worker] == Some(
                    Ok::<ActionView, CrawlError>(ActionView::Stop),
                )
                &&& now.report(next) is Some && !then.state.done() && then.workers[next.worker]
                    == Some(Ok::<ActionView, CrawlError>(ActionView::Sleep)) ==> others_busy(
                    then.workers,
                    next.worker,
                )
            }),
    {
        let start = CrewView::start(seed, max_links, workers);
        let all = turns.push(next);
        assert(all.drop_last() =~= turns);
        assert(all.last() == next);
        assert forall|k: int| #![trigger turns[k]] 0 <= k < turns.len() implies start.play(
            turns.take(k),
        ).links_to_new_pages(turns[k]) by {
            assert(turns.take(k) =~= all.take(k));
            assert(turns[k] == all[k]);
        }
        Self::lemma_farm_grows(seed, max_links, workers, turns);
        assert(all.take(turns.len() as int) =~= turns);
        assert(start.play(turns).links_to_new_pages(all[turns.len() as int]));
        start.play(turns).lemma_turn(next);
    }
}

} // verus!
