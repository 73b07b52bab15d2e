//! The mathematical model of the link graph, and what a merge does to it.

use vstd::prelude::*;
use crate::model::image::ImageView;
use crate::model::link::{id_after, LinkId, LinkView};

verus! {

/// A node that has an identity and an address and nothing else yet.
pub open spec fn bare_node(id: LinkId, url: Seq<char>) -> LinkView {
    LinkView {
        id,
        url,
        children: Seq::empty(),
        parents: Seq::empty(),
        images: Seq::empty(),
        titles: Seq::empty(),
    }
}

/// The mathematical value of a link graph: its nodes in the order in which
/// their addresses were first seen, and the id that the next new node gets.
pub struct GraphView {
    pub nodes: Seq<LinkView>,
    pub next_id: LinkId,
}

/// What one page contributes to the graph.
pub struct Merge {
    pub url: Seq<char>,
    pub parent: Seq<char>,
    pub children: Seq<Seq<char>>,
    pub images: Seq<ImageView>,
    pub titles: Seq<Seq<char>>,
}

impl GraphView {
    /// The graph without nodes whose first node will get the id `first`.
    pub open spec fn empty(first: LinkId) -> GraphView {
        GraphView { nodes: Seq::empty(), next_id: first }
    }

    /// The number of nodes.
    pub open spec fn size(self) -> nat {
        self.nodes.len()
    }

    /// Whether `url` has a node, that is an id.
    pub open spec fn visited(self, url: Seq<char>) -> bool {
        exists|i: int| 0 <= i < self.nodes.len() && (#[trigger] self.nodes[i]).url == url
    }

    /// Where the node of `url` stands, if `url` has one.
    pub open spec fn position(self, url: Seq<char>) -> int {
        choose|i: int| 0 <= i < self.nodes.len() && (#[trigger] self.nodes[i]).url == url
    }

    /// The node of `url`, if `url` has one.
    pub open spec fn node(self, url: Seq<char>) -> LinkView {
        self.nodes[self.position(url)]
    }

    /// The id of `url`, if `url` has one.
    pub open spec fn id_of(self, url: Seq<char>) -> LinkId {
        self.node(url).id
    }

    /// Whether some node has the id `id`.
    pub open spec fn has_id(self, id: LinkId) -> bool {
        exists|i: int| 0 <= i < self.nodes.len() && (#[trigger] self.nodes[i]).id == id
    }

    /// Whether every id in `ids` is the id of a node.
    pub open spec fn all_known(self, ids: Seq<LinkId>) -> bool {
        forall|k: int| 0 <= k < ids.len() ==> self.has_id(#[trigger] ids[k])
    }

    /// The invariant of a link graph: no address has two nodes, ids grow with
    /// the order of first sight and lie below the next id (or the allocator is
    /// exhausted), and every edge ends at a node.
    pub open spec fn wf(self) -> bool {
        &&& forall|i: int, j: int|
            0 <= i < j < self.nodes.len() ==> (#[trigger] self.nodes[i]).url != (
            #[trigger] self.nodes[j]).url
        &&& forall|i: int, j: int|
            0 <= i < j < self.nodes.len() ==> (#[trigger] self.nodes[i]).id < (
            #[trigger] self.nodes[j]).id
        &&& forall|i: int|
            0 <= i < self.nodes.len() ==> (#[trigger] self.nodes[i]).id < self.next_id || (
            self.nodes[i].id == self.next_id && self.next_id == u64::MAX)
        &&& forall|i: int|
            0 <= i < self.nodes.len() ==> self.all_known((#[trigger] self.nodes[i]).children)
        &&& forall|i: int|
            0 <= i < self.nodes.len() ==> self.all_known((#[trigger] self.nodes[i]).parents)
    }

    /// The ids of those of `urls` that have a node, in the order of `urls`.
    pub open spec fn known_ids(self, urls: Seq<Seq<char>>) -> Seq<LinkId>
        decreases urls.len(),
    {
        if urls.len() == 0 {
            Seq::empty()
        } else if self.visited(urls.last()) {
            self.known_ids(urls.drop_last()).push(self.id_of(urls.last()))
        } else {
            self.known_ids(urls.drop_last())
        }
    }

    /// Whether giving `url` a node would hand out an id that a node already
    /// has: `url` is new and the allocator is exhausted.
    pub open spec fn duplicate_identity(self, url: Seq<char>) -> bool {
        !self.visited(url) && self.has_id(self.next_id)
    }

    /// The graph in which `url` has a node: this graph if it has one already,
    /// else this graph with a bare node for `url` at the end, under the next id.
    pub open spec fn register(self, url: Seq<char>) -> GraphView {
        if self.visited(url) {
            self
        } else {
            GraphView {
                nodes: self.nodes.push(bare_node(self.next_id, url)),
                next_id: id_after(self.next_id),
            }
        }
    }

    /// The graph after the page `m.url`, found through `m.parent`, has been
    /// merged.
    ///
    /// The page's node is created if it has none. It gains the parent's id
    /// among its parents if the parent had a node before the merge, the ids of
    /// those children that had a node before the merge, and the images and
    /// titles. The parent's node, if there is one, gains the page's id among
    /// its children.
    pub open spec fn merge(self, m: Merge) -> GraphView {
        let registered = self.register(m.url);
        let at = registered.position(m.url);
        let own = registered.nodes[at];
        let filled = LinkView {
            id: own.id,
            url: own.url,
            children: own.children + self.known_ids(m.children),
            parents: if self.visited(m.parent) {
                own.parents.push(self.id_of(m.parent))
            } else {
                own.parents
            },
            images: own.images + m.images,
            titles: own.titles + m.titles,
        };
        let with_page = registered.nodes.update(at, filled);
        let nodes = if self.visited(m.parent) {
            let p = self.position(m.parent);
            with_page.update(
                p,
                LinkView {
                    id: with_page[p].id,
                    url: with_page[p].url,
                    children: with_page[p].children.push(own.id),
                    parents: with_page[p].parents,
                    images: with_page[p].images,
                    titles: with_page[p].titles,
                },
            )
        } else {
            with_page
        };
        GraphView { nodes, next_id: registered.next_id }
    }

    /// The graph after an attempt to merge `m`: merged, or unchanged where the
    /// merge is refused.
    pub open spec fn apply(self, m: Merge) -> GraphView {
        if self.duplicate_identity(m.url) {
            self
        } else {
            self.merge(m)
        }
    }

    /// The graph after the attempts to merge each of `ms` in turn.
    pub open spec fn apply_all(self, ms: Seq<Merge>) -> GraphView
        decreases ms.len(),
    {
        if ms.len() == 0 {
            self
        } else {
            self.apply_all(ms.drop_last()).apply(ms.last())
        }
    }
}

impl GraphView {
    /// In a well-formed graph a node is found at its own place.
    pub proof fn lemma_position(self, at: int)
        requires
            self.wf(),
            0 <= at < self.nodes.len(),
        ensures
            self.visited(self.nodes[at].url),
            self.position(self.nodes[at].url) == at,
    {
        let url = self.nodes[at].url;
        let found = self.position(url);
        assert(0 <= found < self.nodes.len() && self.nodes[found].url == url);
        if found < at {
            assert(self.nodes[found].url != self.nodes[at].url);
        } else if at < found {
            assert(self.nodes[at].url != self.nodes[found].url);
        }
    }

    /// The ids of known addresses are ids of nodes.
    pub proof fn lemma_known_ids(self, urls: Seq<Seq<char>>)
        requires
            self.wf(),
        ensures
            self.all_known(self.known_ids(urls)),
        decreases urls.len(),
    {
        if urls.len() > 0 {
            self.lemma_known_ids(urls.drop_last());
            if self.visited(urls.last()) {
                let at = self.position(urls.last());
                assert(self.nodes[at].id == self.id_of(urls.last()));
                assert(self.has_id(self.id_of(urls.last())));
            }
        }
    }
}

impl GraphView {
    /// Giving an address its node keeps the graph well-formed and every other
    /// node in its place.
    pub proof fn lemma_register(self, url: Seq<char>)
        requires
            self.wf(),
            !self.duplicate_identity(url),
        ensures
            self.register(url).wf(),
            self.register(url).visited(url),
            self.register(url).size() == if self.visited(url) {
                self.size()
            } else {
                self.size() + 1
            },
            forall|w: Seq<char>| self.register(url).visited(w) <==> self.visited(w) || w == url,
            forall|w: Seq<char>|
                self.visited(w) ==> #[trigger] self.register(url).position(w) == self.position(w),
            forall|i: int|
                0 <= i < self.nodes.len() ==> #[trigger] self.register(url).nodes[i]
                    == self.nodes[i],
            !self.visited(url) ==> self.register(url).position(url) == self.nodes.len(),
            forall|id: LinkId| self.has_id(id) ==> self.register(url).has_id(id),
    {
        let after = self.register(url);
        if self.visited(url) {
        } else {
            let n = self.nodes.len() as int;
            assert(after.nodes[n].url == url);
            assert forall|i: int| 0 <= i < n implies (#[trigger] self.nodes[i]).id
                < self.next_id by {
                if self.nodes[i].id == self.next_id {
                    assert(self.has_id(self.next_id));
                }
            }
            assert forall|id: LinkId| self.has_id(id) implies after.has_id(id) by {
                let i = choose|i: int| 0 <= i < self.nodes.len() && (#[trigger] self.nodes[i]).id == id;
                assert(after.nodes[i].id == id);
            }
            assert forall|i: int| 0 <= i < after.nodes.len() implies after.all_known(
                (#[trigger] after.nodes[i]).children,
            ) by {
                if i < n {
                    assert(self.all_known(self.nodes[i].children));
                }
            }
            assert forall|i: int| 0 <= i < after.nodes.len() implies after.all_known(
                (#[trigger] after.nodes[i]).parents,
            ) by {
                if i < n {
                    assert(self.all_known(self.nodes[i].parents));
                }
            }
            assert(after.wf());
            assert forall|w: Seq<char>| after.visited(w) <==> self.visited(w) || w == url by {
                if after.visited(w) {
                    let i = after.position(w);
                    if i < n {
                        assert(self.nodes[i].url == w);
                    }
                }
                if self.visited(w) {
                    let i = self.position(w);
                    assert(after.nodes[i].url == w);
                }
            }
            after.lemma_position(n);
        }
        assert forall|w: Seq<char>| self.visited(w) implies #[trigger] after.position(w)
            == self.position(w) by {
            let i = self.position(w);
            assert(after.nodes[i] == self.nodes[i]);
            after.lemma_position(i);
        }
    }

    /// A merge keeps the graph well-formed, keeps every node in its place
    /// under its id and address, and adds at most the page's own node.
    pub proof fn lemma_merge(self, m: Merge)
        requires
            self.wf(),
            !self.duplicate_identity(m.url),
        ensures
            self.merge(m).wf(),
            self.merge(m).next_id == self.register(m.url).next_id,
            self.merge(m).nodes.len() == self.register(m.url).nodes.len(),
            forall|k: int|
                #![trigger self.merge(m).nodes[k]]
                0 <= k < self.merge(m).nodes.len() ==> self.merge(m).nodes[k].id
                    == self.register(m.url).nodes[k].id && self.merge(m).nodes[k].url
                    == self.register(m.url).nodes[k].url,
            forall|w: Seq<char>| self.merge(m).visited(w) <==> self.visited(w) || w == m.url,
            forall|w: Seq<char>|
                self.register(m.url).visited(w) ==> #[trigger] self.merge(m).position(w)
                    == self.register(m.url).position(w),
    {
        let r = self.register(m.url);
        let g = self.merge(m);
        self.lemma_register(m.url);
        self.lemma_known_ids(m.children);
        let at = r.position(m.url);
        assert(0 <= at < r.nodes.len() && r.nodes[at].url == m.url);
        if self.visited(m.parent) {
            let p = self.position(m.parent);
            assert(0 <= p < self.nodes.len() && self.nodes[p].url == m.parent);
            assert(self.has_id(self.id_of(m.parent)));
        }
        assert(g.nodes.len() == r.nodes.len());
        assert forall|k: int| 0 <= k < g.nodes.len() implies (#[trigger] g.nodes[k]).id
            == r.nodes[k].id && g.nodes[k].url == r.nodes[k].url by {}
        assert forall|id: LinkId| r.has_id(id) implies g.has_id(id) by {
            let i = choose|i: int| 0 <= i < r.nodes.len() && (#[trigger] r.nodes[i]).id == id;
            assert(g.nodes[i].id == id);
        }
        assert(r.has_id(r.nodes[at].id));
        assert forall|k: int| 0 <= k < g.nodes.len() implies g.all_known(
            (#[trigger] g.nodes[k]).children,
        ) by {
            assert(r.all_known(r.nodes[k].children));
            let added = self.known_ids(m.children);
            assert forall|c: int| 0 <= c < g.nodes[k].children.len() implies g.has_id(
                #[trigger] g.nodes[k].children[c],
            ) by {
                let child = g.nodes[k].children[c];
                if c < r.nodes[k].children.len() {
                    assert(child == r.nodes[k].children[c]);
                    assert(r.has_id(child));
                } else if k == at && c < r.nodes[k].children.len() + added.len() {
                    assert(child == added[c - r.nodes[k].children.len()]);
                    assert(self.has_id(child));
                } else {
                    assert(child == r.nodes[at].id);
                }
            }
        }
        assert forall|k: int| 0 <= k < g.nodes.len() implies g.all_known(
            (#[trigger] g.nodes[k]).parents,
        ) by {
            assert(r.all_known(r.nodes[k].parents));
            assert forall|c: int| 0 <= c < g.nodes[k].parents.len() implies g.has_id(
                #[trigger] g.nodes[k].parents[c],
            ) by {
                let parent = g.nodes[k].parents[c];
                if c < r.nodes[k].parents.len() {
                    assert(parent == r.nodes[k].parents[c]);
                    assert(r.has_id(parent));
                } else {
                    assert(parent == self.id_of(m.parent));
                    assert(self.has_id(parent));
                }
            }
        }
        assert(g.wf());
        assert forall|w: Seq<char>| g.visited(w) <==> r.visited(w) by {
            if g.visited(w) {
                let i = g.position(w);
                assert(r.nodes[i].url == w);
            }
            if r.visited(w) {
                let i = r.position(w);
                assert(g.nodes[i].url == w);
            }
        }
        assert forall|w: Seq<char>| r.visited(w) implies #[trigger] g.position(w) == r.position(
            w,
        ) by {
            let i = r.position(w);
            assert(g.nodes[i].url == w);
            g.lemma_position(i);
        }
    }

    /// An attempt to merge keeps the graph well-formed and every address that
    /// has a node with that node's id.
    pub proof fn lemma_apply(self, m: Merge)
        requires
            self.wf(),
        ensures
            self.apply(m).wf(),
            self.size() <= self.apply(m).size() <= self.size() + 1,
            forall|w: Seq<char>| self.visited(w) ==> #[trigger] self.apply(m).visited(w),
            forall|w: Seq<char>|
                self.visited(w) ==> #[trigger] self.apply(m).id_of(w) == self.id_of(w),
            forall|w: Seq<char>|
                #[trigger] self.apply(m).visited(w) ==> self.visited(w) || w == m.url,
    {
        if !self.duplicate_identity(m.url) {
            self.lemma_register(m.url);
            self.lemma_merge(m);
            assert forall|w: Seq<char>| self.visited(w) implies #[trigger] self.apply(m).id_of(w)
                == self.id_of(w) by {
                let at = self.position(w);
                assert(self.register(m.url).position(w) == at);
                assert(self.merge(m).position(w) == at);
                assert(self.merge(m).nodes[at].id == self.register(m.url).nodes[at].id);
            }
        }
    }

    /// Identity is stable: an address that has an id keeps it through every
    /// sequence of merges, and asking again for its node changes nothing.
    pub proof fn lemma_identity_stable(self, ms: Seq<Merge>, url: Seq<char>)
        requires
            self.wf(),
            self.visited(url),
        ensures
            self.apply_all(ms).wf(),
            self.apply_all(ms).visited(url),
            self.apply_all(ms).id_of(url) == self.id_of(url),
            self.apply_all(ms).register(url) == self.apply_all(ms),
        decreases ms.len(),
    {
        if ms.len() > 0 {
            self.lemma_identity_stable(ms.drop_last(), url);
            self.apply_all(ms.drop_last()).lemma_apply(ms.last());
        }
    }

    /// Edges run both ways: after a page is merged through a parent that had
    /// a node, the parent's id is among the page's parents and the page's id is
    /// among the parent's children.
    pub proof fn lemma_edge_both_ways(self, m: Merge)
        requires
            self.wf(),
            self.visited(m.parent),
            !self.duplicate_identity(m.url),
        ensures
            self.merge(m).visited(m.url),
            self.merge(m).visited(m.parent),
            self.merge(m).node(m.url).parents.contains(self.merge(m).id_of(m.parent)),
            self.merge(m).node(m.parent).children.contains(self.merge(m).id_of(m.url)),
    {
        let r = self.register(m.url);
        let g = self.merge(m);
        self.lemma_register(m.url);
        self.lemma_merge(m);
        let at = r.position(m.url);
        let p = self.position(m.parent);
        assert(0 <= p < self.nodes.len() && self.nodes[p].url == m.parent);
        assert(r.position(m.parent) == p);
        assert(g.position(m.url) == at);
        assert(g.position(m.parent) == p);
        assert(g.nodes[p].id == r.nodes[p].id);
        let parents = g.nodes[at].parents;
        assert(parents[r.nodes[at].parents.len() as int] == self.id_of(m.parent));
        let children = g.nodes[p].children;
        assert(children[children.len() - 1] == r.nodes[at].id);
    }

    /// What a merge makes of the page's own node: it keeps its id and what it
    /// held, and gains the images and titles, the parent's id if the parent
    /// had a node, the ids of the children that had one, and its own id among
    /// its children where the page is its own parent.
    pub proof fn lemma_merged_page(self, m: Merge)
        requires
            self.wf(),
            !self.duplicate_identity(m.url),
        ensures
            ({
                let before = if self.visited(m.url) {
                    self.node(m.url)
                } else {
                    bare_node(self.next_id, m.url)
                };
                let after = self.merge(m).node(m.url);
                &&& after.id == before.id
                &&& after.url == m.url
                &&& after.images == before.images + m.images
                &&& after.titles == before.titles + m.titles
                &&& after.parents == if self.visited(m.parent) {
                    before.parents.push(self.id_of(m.parent))
                } else {
                    before.parents
                }
                &&& after.children == if self.visited(m.parent) && m.parent == m.url {
                    (before.children + self.known_ids(m.children)).push(before.id)
                } else {
                    before.children + self.known_ids(m.children)
                }
            }),
    {
        let r = self.register(m.url);
        let g = self.merge(m);
        self.lemma_register(m.url);
        self.lemma_merge(m);
        let at = r.position(m.url);
        assert(0 <= at < r.nodes.len() && r.nodes[at].url == m.url);
        assert(g.position(m.url) == at);
        if self.visited(m.url) {
            assert(r.position(m.url) == self.position(m.url));
        }
        if self.visited(m.parent) {
            let p = self.position(m.parent);
            assert(0 <= p < self.nodes.len() && self.nodes[p].url == m.parent);
            if p == at {
                assert(r.nodes[at].url == self.nodes[p].url);
            }
            if m.parent == m.url {
                r.lemma_position(p);
            }
        }
    }

    /// What a merge makes of the other nodes: the parent's node gains the
    /// page's id among its children, and every other node stays as it was.
    pub proof fn lemma_merged_others(self, m: Merge, other: Seq<char>)
        requires
            self.wf(),
            !self.duplicate_identity(m.url),
            self.visited(other),
            other != m.url,
        ensures
            self.merge(m).visited(other),
            self.merge(m).node(other).id == self.node(other).id,
            self.merge(m).node(other).url == other,
            self.merge(m).node(other).parents == self.node(other).parents,
            self.merge(m).node(other).images == self.node(other).images,
            self.merge(m).node(other).titles == self.node(other).titles,
            self.merge(m).node(other).children == if other == m.parent {
                self.node(other).children.push(self.merge(m).id_of(m.url))
            } else {
                self.node(other).children
            },
    {
        let r = self.register(m.url);
        let g = self.merge(m);
        self.lemma_register(m.url);
        self.lemma_merge(m);
        let at = r.position(m.url);
        assert(0 <= at < r.nodes.len() && r.nodes[at].url == m.url);
        assert(g.position(m.url) == at);
        let o = self.position(other);
        assert(0 <= o < self.nodes.len() && self.nodes[o].url == other);
        assert(r.position(other) == o);
        assert(g.position(other) == o);
        assert(r.nodes[o] == self.nodes[o]);
        if self.visited(m.parent) {
            let p = self.position(m.parent);
            assert(0 <= p < self.nodes.len() && self.nodes[p].url == m.parent);
            if other == m.parent {
                assert(p == o);
            } else if p == o {
                assert(self.nodes[p].url == self.nodes[o].url);
            }
        }
    }

    /// An address is visited once it has been merged, and a merge makes no
    /// other address visited.
    pub proof fn lemma_visited_after_merge(self, m: Merge)
        requires
            self.wf(),
            !self.duplicate_identity(m.url),
        ensures
            self.merge(m).visited(m.url),
            forall|w: Seq<char>| w != m.url ==> self.merge(m).visited(w) == self.visited(w),
    {
        self.lemma_merge(m);
    }

    /// An address is not visited before it is merged: however many other
    /// addresses were merged into a graph that was empty.
    pub proof fn lemma_unvisited_before_merge(first: LinkId, ms: Seq<Merge>, url: Seq<char>)
        requires
            forall|k: int| 0 <= k < ms.len() ==> (#[trigger] ms[k]).url != url,
        ensures
            GraphView::empty(first).apply_all(ms).wf(),
            !GraphView::empty(first).apply_all(ms).visited(url),
        decreases ms.len(),
    {
        if ms.len() > 0 {
            Self::lemma_unvisited_before_merge(first, ms.drop_last(), url);
            GraphView::empty(first).apply_all(ms.drop_last()).lemma_apply(ms.last());
        }
    }
}

} // verus!
