//! The link graph: one node for each address that was merged, kept by its id
//! and found again by its address.

use std::collections::HashMap;
use vstd::prelude::*;
use crate::model::graph_view::{bare_node, GraphView, Merge};
use crate::model::image::Image;
use crate::model::link::{IdAllocator, Link, LinkId, LinkView};
use crate::text::same_text;

verus! {

broadcast use vstd::std_specs::hash::group_hash_axioms;

/// Why a merge was refused.
#[derive(Debug, Clone, Copy, PartialEq, Eq, Structural)]
pub enum GraphError {
    /// The id generated for a new address belongs to another address already.
    DuplicateIdentity,
}

impl GraphError {
    /// The error in words.
    pub fn message(&self) -> (text: String)
        ensures
            text@ == "link already exists"@,
    {
        "link already exists".to_owned()
    }
}

/// The nodes that the links `links`, taken in the order of `index`, stand for.
pub(crate) open spec fn nodes_of(links: Map<LinkId, Link>, index: Seq<(String, LinkId)>) -> Seq<
    LinkView,
> {
    Seq::new(index.len(), |i: int| links[index[i].1]@)
}

/// Whether `index` lists exactly the links of `links`, each under its id and
/// with its address.
pub(crate) open spec fn indexed(links: Map<LinkId, Link>, index: Seq<(String, LinkId)>) -> bool {
    &&& forall|i: int|
        0 <= i < index.len() ==> {
            &&& links.contains_key((#[trigger] index[i]).1)
            &&& links[index[i].1].id == index[i].1
            &&& links[index[i].1].url@ == index[i].0@
        }
    &&& forall|id: LinkId| #[trigger]
        links.contains_key(id) ==> exists|i: int|
            0 <= i < index.len() && (#[trigger] index[i]).1 == id
}

/// The position in `index` of the address `url`.
fn find_url(index: &Vec<(String, LinkId)>, url: &str) -> (found: Option<usize>)
    ensures
        match found {
            Some(at) => at < index@.len() && index@[at as int].0@ == url@,
            None => forall|i: int| 0 <= i < index@.len() ==> (#[trigger] index@[i]).0@ != url@,
        },
{
    let mut i: usize = 0;
    while i < index.len()
        invariant
            i <= index@.len(),
            forall|j: int| 0 <= j < i ==> (#[trigger] index@[j]).0@ != url@,
        decreases index@.len() - i,
    {
        if same_text(index[i].0.as_str(), url) {
            return Some(i);
        }
        i += 1;
    }
    None
}

/// A copy of `texts`.
fn copy_texts(texts: &[String]) -> (copy: Vec<String>)
    ensures
        copy@ == texts@,
{
    let mut copy: Vec<String> = Vec::new();
    let mut i: usize = 0;
    while i < texts.len()
        invariant
            i <= texts@.len(),
            copy@ == texts@.take(i as int),
        decreases texts@.len() - i,
    {
        copy.push(texts[i].clone());
        assert(texts@.take(i + 1) == texts@.take(i as int).push(texts@[i as int]));
        i += 1;
    }
    assert(texts@.take(texts@.len() as int) == texts@);
    copy
}

/// A copy of `images`.
fn copy_images(images: &[Image]) -> (copy: Vec<Image>)
    ensures
        copy@ == images@,
{
    let mut copy: Vec<Image> = Vec::new();
    let mut i: usize = 0;
    while i < images.len()
        invariant
            i <= images@.len(),
            copy@ == images@.take(i as int),
        decreases images@.len() - i,
    {
        copy.push(images[i].clone());
        assert(images@.take(i + 1) == images@.take(i as int).push(images@[i as int]));
        i += 1;
    }
    assert(images@.take(images@.len() as int) == images@);
    copy
}

/// The addresses that were merged, each with its node.
///
/// The nodes are kept by id. The addresses are kept in the order in which
/// they were first seen, each with the id it was given. Nodes are only ever
/// added and appended to. The graph owns the allocator that names its nodes.
#[derive(Debug)]
pub struct LinkGraph {
    links: HashMap<LinkId, Link>,
    link_ids: Vec<(String, LinkId)>,
    ids: IdAllocator,
}

impl View for LinkGraph {
    type V = GraphView;

    closed spec fn view(&self) -> GraphView {
        GraphView { nodes: nodes_of(self.links@, self.link_ids@), next_id: self.ids.upcoming() }
    }
}

impl LinkGraph {
    /// Whether the addresses and the nodes go together.
    pub closed spec fn consistent(self) -> bool {
        indexed(self.links@, self.link_ids@)
    }

    /// Holds of every link graph.
    #[verifier::type_invariant]
    pub open spec fn well_formed(self) -> bool {
        self@.wf() && self.consistent()
    }

    /// An empty graph whose first node gets the id 0.
    pub fn new() -> (graph: LinkGraph)
        ensures
            graph@ == GraphView::empty(0),
    {
        LinkGraph::with_allocator(IdAllocator::new())
    }

    /// An empty graph that names its nodes with `ids`.
    pub fn with_allocator(ids: IdAllocator) -> (graph: LinkGraph)
        ensures
            graph@ == GraphView::empty(ids.upcoming()),
    {
        let graph = LinkGraph { links: HashMap::new(), link_ids: Vec::new(), ids };
        assert(graph@.nodes =~= Seq::empty());
        graph
    }

    /// The number of nodes.
    pub fn len(&self) -> (size: usize)
        ensures
            size == self@.size(),
    {
        self.link_ids.len()
    }

    /// Whether `url` has a node.
    pub fn link_visited(&self, url: &str) -> (visited: bool)
        ensures
            visited == self@.visited(url@),
    {
        self.link_id(url).is_some()
    }

    /// The id of `url`, if it has one.
    pub fn link_id(&self, url: &str) -> (id: Option<LinkId>)
        ensures
            id == if self@.visited(url@) {
                Some(self@.id_of(url@))
            } else {
                None
            },
    {
        proof {
            use_type_invariant(self);
        }
        match find_url(&self.link_ids, url) {
            Some(at) => {
                proof {
                    assert(self@.nodes[at as int].url == url@);
                    self@.lemma_position(at as int);
                }
                Some(self.link_ids[at].1)
            },
            None => {
                proof {
                    if self@.visited(url@) {
                        let k = self@.position(url@);
                        assert(self.link_ids@[k].0@ == url@);
                    }
                }
                None
            },
        }
    }

    /// The node of `url`, if it has one.
    pub fn get(&self, url: &str) -> (link: Option<&Link>)
        ensures
            match link {
                Some(link) => self@.visited(url@) && link@ == self@.node(url@),
                None => !self@.visited(url@),
            },
    {
        proof {
            use_type_invariant(self);
        }
        match self.link_id(url) {
            Some(id) => {
                proof {
                    let at = self@.position(url@);
                    assert(self.link_ids@[at].1 == id);
                }
                self.links.get(&id)
            },
            None => None,
        }
    }

    /// All nodes, in the order in which their addresses were first seen.
    pub fn links(&self) -> (links: Vec<&Link>)
        ensures
            links.deep_view() == self@.nodes,
            self@.wf(),
    {
        proof {
            use_type_invariant(self);
        }
        let mut links: Vec<&Link> = Vec::new();
        let mut i: usize = 0;
        while i < self.link_ids.len()
            invariant
                i <= self.link_ids@.len(),
                self.consistent(),
                links.deep_view() == self@.nodes.take(i as int),
            decreases self.link_ids@.len() - i,
        {
            match self.links.get(&self.link_ids[i].1) {
                Some(link) => {
                    let ghost earlier = links.deep_view();
                    assert(*link == self.links@[self.link_ids@[i as int].1]);
                    links.push(link);
                    assert(links.deep_view() =~= earlier.push(link@));
                    assert(self@.nodes.take(i + 1) =~= self@.nodes.take(i as int).push(
                        self@.nodes[i as int],
                    ));
                },
                None => {
                    assert(self.links@.contains_key(self.link_ids@[i as int].1));
                    unreached()
                },
            }
            i += 1;
        }
        assert(self@.nodes.take(self.link_ids@.len() as int) =~= self@.nodes);
        links
    }

    /// Takes the nodes, the addresses and the allocator out and leaves an
    /// empty graph behind, for the caller to change them and put them back.
    fn take_parts(&mut self) -> (parts: (HashMap<LinkId, Link>, Vec<(String, LinkId)>, IdAllocator))
        ensures
            parts.0 == old(self).links,
            parts.1 == old(self).link_ids,
            parts.2 == old(self).ids,
    {
        let mut taken = LinkGraph::new();
        std::mem::swap(self, &mut taken);
        (taken.links, taken.link_ids, taken.ids)
    }

    /// The id of `url`, which gets a node if it has none.
    ///
    /// An address that has a node keeps it, and with it its id. A new address
    /// gets a bare node at the end, under the next id. If that id has a node
    /// already, nothing changes and the address is refused.
    pub(crate) fn force_get_link_id(&mut self, url: &str) -> (id: Result<LinkId, GraphError>)
        ensures
            match id {
                Ok(id) => {
                    &&& !old(self)@.duplicate_identity(url@)
                    &&& final(self)@ == old(self)@.register(url@)
                    &&& final(self)@.visited(url@)
                    &&& id == final(self)@.id_of(url@)
                    &&& id == if old(self)@.visited(url@) {
                        old(self)@.id_of(url@)
                    } else {
                        old(self)@.next_id
                    }
                },
                Err(e) => {
                    &&& e == GraphError::DuplicateIdentity
                    &&& old(self)@.duplicate_identity(url@)
                    &&& final(self)@ == old(self)@
                },
            },
    {
        proof {
            use_type_invariant(&*self);
        }
        let ghost before = self@;
        if let Some(id) = self.link_id(url) {
            return Ok(id);
        }
        let id = self.ids.peek();
        proof {
            if before.has_id(id) {
                let i = choose|i: int|
                    0 <= i < before.nodes.len() && (#[trigger] before.nodes[i]).id == id;
                assert(self.links@.contains_key(self.link_ids@[i].1));
            }
            if self.links@.contains_key(id) {
                let i = choose|i: int|
                    0 <= i < self.link_ids@.len() && (#[trigger] self.link_ids@[i]).1 == id;
                assert(before.nodes[i].id == id);
            }
        }
        if self.links.contains_key(&id) {
            return Err(GraphError::DuplicateIdentity);
        }
        let (mut links, mut link_ids, mut ids) = self.take_parts();
        let ghost old_links = links@;
        let ghost old_index = link_ids@;
        let link = Link::new(
            &mut ids,
            url.to_owned(),
            Vec::new(),
            Vec::new(),
            Vec::new(),
            Vec::new(),
        );
        proof {
            assert(link@.images =~= Seq::empty());
            assert(link@.titles =~= Seq::empty());
            assert(link@ == bare_node(before.next_id, url@));
            before.lemma_register(url@);
        }
        let entry = (url.to_owned(), id);
        links.insert(id, link);
        link_ids.push(entry);
        proof {
            assert forall|i: int| 0 <= i < old_index.len() implies old_index[i].1 != id by {
                assert(old_links.contains_key(old_index[i].1));
            }
            assert(nodes_of(links@, link_ids@) =~= before.register(url@).nodes);
            assert(indexed(links@, link_ids@)) by {
                assert forall|k: LinkId| #[trigger] links@.contains_key(k) implies exists|i: int|
                    0 <= i < link_ids@.len() && (#[trigger] link_ids@[i]).1 == k by {
                    if k == id {
                        assert(link_ids@[old_index.len() as int].1 == k);
                    } else {
                        let i = choose|i: int|
                            0 <= i < old_index.len() && (#[trigger] old_index[i]).1 == k;
                        assert(link_ids@[i].1 == k);
                    }
                }
            }
            before.register(url@).lemma_position(old_index.len() as int);
        }
        *self = LinkGraph { links, link_ids, ids };
        Ok(id)
    }

    /// The ids of those of `children` that have a node, in their order.
    fn known_children(&self, children: &[String]) -> (ids: Vec<LinkId>)
        ensures
            ids@ == self@.known_ids(children.deep_view()),
    {
        let mut ids: Vec<LinkId> = Vec::new();
        let mut i: usize = 0;
        while i < children.len()
            invariant
                i <= children@.len(),
                ids@ == self@.known_ids(children.deep_view().take(i as int)),
            decreases children@.len() - i,
        {
            let ghost prefix = children.deep_view().take(i + 1);
            assert(prefix.drop_last() =~= children.deep_view().take(i as int));
            assert(prefix.last() == children@[i as int]@);
            if let Some(id) = self.link_id(children[i].as_str()) {
                ids.push(id);
            }
            i += 1;
        }
        assert(children.deep_view().take(children@.len() as int) =~= children.deep_view());
        ids
    }

    /// Merges what one page contributed: the page `url`, reached through
    /// `parent`, with the addresses it links to, its images and its titles.
    ///
    /// The merge is refused, and the graph left as it was, exactly when `url`
    /// is new and the id generated for it belongs to another address.
    pub fn update(
        &mut self,
        url: &str,
        parent: &str,
        children: &[String],
        images: &[Image],
        titles: &[String],
    ) -> (merged: Result<(), GraphError>)
        ensures
            match merged {
                Ok(()) => {
                    &&& !old(self)@.duplicate_identity(url@)
                    &&& final(self)@ == old(self)@.merge(
                        merge_of(url, parent, children, images, titles),
                    )
                },
                Err(e) => {
                    &&& e == GraphError::DuplicateIdentity
                    &&& old(self)@.duplicate_identity(url@)
                    &&& final(self)@ == old(self)@
                },
            },
            final(self)@ == old(self)@.apply(merge_of(url, parent, children, images, titles)),
            old(self)@.wf(),
            final(self)@.wf(),
            merged is Ok ==> final(self)@.visited(url@),
            forall|w: Seq<char>|
                old(self)@.visited(w) ==> #[trigger] final(self)@.visited(w) && final(self)@.id_of(w)
                    == old(self)@.id_of(w),
            forall|w: Seq<char>|
                #[trigger] final(self)@.visited(w) ==> old(self)@.visited(w) || w == url@,
            final(self)@.size() == if merged is Ok && !old(self)@.visited(url@) {
                old(self)@.size() + 1
            } else {
                old(self)@.size()
            },
    {
        proof {
            use_type_invariant(&*self);
        }
        let ghost before = self@;
        let ghost m = merge_of(url, parent, children, images, titles);
        proof {
            before.lemma_apply(m);
            if !before.duplicate_identity(m.url) {
                before.lemma_register(m.url);
                before.lemma_merge(m);
            }
        }
        let maybe_parent = self.link_id(parent);
        let mut known = self.known_children(children);
        let own = match self.force_get_link_id(url) {
            Ok(id) => id,
            Err(e) => {
                return Err(e);
            },
        };
        proof {
            use_type_invariant(&*self);
        }
        let ghost registered = self@;
        let ghost at = registered.position(url@);
        let (mut links, link_ids, ids) = self.take_parts();
        let ghost start = links@;
        proof {
            assert(0 <= at < link_ids@.len() && registered.nodes[at].url == url@);
            assert(link_ids@[at].1 == own);
            assert(start.contains_key(own));
            assert forall|i: int, j: int| 0 <= i < j < link_ids@.len() implies (
            #[trigger] link_ids@[i]).1 != (#[trigger] link_ids@[j]).1 by {
                assert(registered.nodes[i].id < registered.nodes[j].id);
            }
        }
        let mut link = match links.remove(&own) {
            Some(link) => link,
            None => unreached(),
        };
        let mut new_images = copy_images(images);
        let mut new_titles = copy_texts(titles);
        if let Some(parent_id) = maybe_parent {
            link.parents.push(parent_id);
        }
        link.children.append(&mut known);
        link.images.append(&mut new_images);
        link.titles.append(&mut new_titles);
        links.insert(own, link);
        let ghost filled = links@;
        if let Some(parent_id) = maybe_parent {
            proof {
                let p = before.position(parent@);
                assert(0 <= p < before.nodes.len() && before.nodes[p].url == parent@);
                assert(registered.nodes[p] == before.nodes[p]);
                assert(link_ids@[p].1 == parent_id);
                assert(start.contains_key(link_ids@[p].1));
            }
            let mut parent_link = match links.remove(&parent_id) {
                Some(link) => link,
                None => unreached(),
            };
            parent_link.children.push(own);
            links.insert(parent_id, parent_link);
        }
        proof {
            let goal = before.merge(m).nodes;
            assert(filled[own]@.images =~= registered.nodes[at].images + m.images);
            assert(filled[own]@.titles =~= registered.nodes[at].titles + m.titles);
            assert forall|k: int| 0 <= k < link_ids@.len() implies links@.contains_key(
                (#[trigger] link_ids@[k]).1,
            ) && links@[link_ids@[k].1]@ == goal[k] && links@[link_ids@[k].1].id == link_ids@[k].1
                && links@[link_ids@[k].1].url@ == link_ids@[k].0@ by {
                assert(start.contains_key(link_ids@[k].1));
                assert(registered.nodes[k] == start[link_ids@[k].1]@);
                if before.visited(parent@) {
                    let p = before.position(parent@);
                    assert(link_ids@[p].1 == maybe_parent->0);
                    if k != p {
                        assert(link_ids@[k].1 != link_ids@[p].1);
                    }
                }
                if k != at {
                    assert(link_ids@[k].1 != link_ids@[at].1);
                }
            }
            assert(nodes_of(links@, link_ids@) =~= goal);
            assert(indexed(links@, link_ids@)) by {
                assert forall|k: LinkId| #[trigger] links@.contains_key(k) implies exists|i: int|
                    0 <= i < link_ids@.len() && (#[trigger] link_ids@[i]).1 == k by {
                    assert(start.contains_key(k));
                }
            }
        }
        *self = LinkGraph { links, link_ids, ids };
        Ok(())
    }
}

impl Default for LinkGraph {
    fn default() -> (graph: LinkGraph)
        ensures
            graph@ == GraphView::empty(0),
    {
        LinkGraph::new()
    }
}

/// The contribution that the arguments of a merge stand for.
pub open spec fn merge_of(
    url: &str,
    parent: &str,
    children: &[String],
    images: &[Image],
    titles: &[String],
) -> Merge {
    Merge {
        url: url@,
        parent: parent@,
        children: children.deep_view(),
        images: images.deep_view(),
        titles: titles.deep_view(),
    }
}

} // verus!
