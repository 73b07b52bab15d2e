use vstd::prelude::*;
use crate::model::image::{Image, ImageView};

verus! {

/// The identity of a node of the link graph.
pub type LinkId = u64;

/// The id that an allocator offers after it has handed out `id`: the next
/// one, or `id` again where there is no larger one.
pub open spec fn id_after(id: LinkId) -> LinkId {
    if id < u64::MAX {
        (id + 1) as u64
    } else {
        id
    }
}

/// Hands out link ids in increasing order.
///
/// An allocator never goes back. Once it has handed out the largest id there
/// is, it is exhausted and keeps offering that same id, which the link graph
/// then refuses as a duplicate.
#[derive(Debug)]
pub struct IdAllocator {
    next: LinkId,
}

impl IdAllocator {
    /// The id that the next call of [`IdAllocator::next_id`] returns.
    pub closed spec fn upcoming(&self) -> LinkId {
        self.next
    }

    /// An allocator whose first id is 0.
    pub fn new() -> (ids: IdAllocator)
        ensures
            ids.upcoming() == 0,
    {
        IdAllocator { next: 0 }
    }

    /// An allocator whose first id is `first`.
    pub fn starting_at(first: LinkId) -> (ids: IdAllocator)
        ensures
            ids.upcoming() == first,
    {
        IdAllocator { next: first }
    }

    /// The id that would be handed out next, without taking it.
    pub fn peek(&self) -> (id: LinkId)
        ensures
            id == self.upcoming(),
    {
        self.next
    }

    /// Takes the next id.
    pub fn next_id(&mut self) -> (id: LinkId)
        ensures
            id == old(self).upcoming(),
            final(self).upcoming() == id_after(id),
    {
        let id = self.next;
        if id < u64::MAX {
            self.next = id + 1;
        }
        id
    }
}

/// One node of the link graph: a page, the pages around it and what was found
/// on it.
#[derive(Debug, PartialEq, Eq)]
pub struct Link {
    /// The node's identity.
    pub id: LinkId,
    /// The page's absolute address.
    pub url: String,
    /// The pages that this page links to.
    pub children: Vec<LinkId>,
    /// The pages that link to this page.
    pub parents: Vec<LinkId>,
    /// The images found on the page.
    pub images: Vec<Image>,
    /// The headings and titles found on the page.
    pub titles: Vec<String>,
}

/// The mathematical value of a [`Link`].
pub struct LinkView {
    pub id: LinkId,
    pub url: Seq<char>,
    pub children: Seq<LinkId>,
    pub parents: Seq<LinkId>,
    pub images: Seq<ImageView>,
    pub titles: Seq<Seq<char>>,
}

impl View for Link {
    type V = LinkView;

    open spec fn view(&self) -> LinkView {
        LinkView {
            id: self.id,
            url: self.url@,
            children: self.children@,
            parents: self.parents@,
            images: self.images.deep_view(),
            titles: self.titles.deep_view(),
        }
    }
}

impl DeepView for Link {
    type V = LinkView;

    open spec fn deep_view(&self) -> LinkView {
        self@
    }
}

impl Link {
    /// A link with a fresh id taken from `ids`.
    pub fn new(
        ids: &mut IdAllocator,
        url: String,
        children: Vec<LinkId>,
        parents: Vec<LinkId>,
        images: Vec<Image>,
        titles: Vec<String>,
    ) -> (link: Link)
        ensures
            link.id == old(ids).upcoming(),
            final(ids).upcoming() == id_after(link.id),
            link.url == url,
            link.children == children,
            link.parents == parents,
            link.images == images,
            link.titles == titles,
    {
        let id = ids.next_id();
        Link { url, id, children, parents, images, titles }
    }
}

} // verus!
