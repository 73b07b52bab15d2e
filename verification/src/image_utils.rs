//! The image pipeline: the catalog of the images that a crawl found, each
//! under a generated id, and the rules by which they are downloaded.
//!
//! The catalog holds every image that was found. Which of them are on disk is
//! not recorded here: an image is cataloged whether or not it is downloaded
//! later, and whether or not its download succeeds.

use vstd::prelude::*;
use crate::model::graph_view::GraphView;
use crate::model::image::{Image, ImageView};
use crate::model::link::LinkView;
use crate::model::link_graph::LinkGraph;
use crate::text::same_text;

verus! {

/// Why an image was not downloaded.
#[derive(Debug, Clone, Copy, PartialEq, Eq, Structural)]
pub enum DownloadError {
    /// The response named no content type, or one that has no file extension
    /// here.
    UnsupportedContentType,
}

impl DownloadError {
    /// The error in words.
    pub fn message(&self) -> (text: String)
        ensures
            text@ == "unsupported extension type"@,
    {
        "unsupported extension type".to_owned()
    }
}

/// The file extension under which an image of the content type `content_type`
/// is stored, for the content types that have one.
pub open spec fn extension_of(content_type: Seq<char>) -> Option<Seq<char>> {
    if content_type == "image/gif"@ {
        Some("gif"@)
    } else if content_type == "image/jpeg"@ {
        Some("jpg"@)
    } else if content_type == "image/png"@ {
        Some("png"@)
    } else if content_type == "image/svg+xml"@ {
        Some("svg"@)
    } else if content_type == "image/webp"@ {
        Some("webp"@)
    } else if content_type == "image/tiff"@ {
        Some("tif"@)
    } else {
        None
    }
}

/// The file extension that a response's content type calls for. A response
/// without a content type has none.
pub open spec fn extension_for(content_type: Option<Seq<char>>) -> Option<Seq<char>> {
    match content_type {
        Some(content_type) => extension_of(content_type),
        None => None,
    }
}

/// The file extension for a response with the content type `content_type`.
pub fn get_extension(content_type: Option<&str>) -> (extension: Result<&'static str, DownloadError>)
    ensures
        match extension_for(content_type.deep_view()) {
            Some(text) => extension is Ok && extension->Ok_0@ == text,
            None => extension == Err::<&str, DownloadError>(DownloadError::UnsupportedContentType),
        },
{
    match content_type {
        None => Err(DownloadError::UnsupportedContentType),
        Some(content_type) => {
            if same_text(content_type, "image/gif") {
                Ok("gif")
            } else if same_text(content_type, "image/jpeg") {
                Ok("jpg")
            } else if same_text(content_type, "image/png") {
                Ok("png")
            } else if same_text(content_type, "image/svg+xml") {
                Ok("svg")
            } else if same_text(content_type, "image/webp") {
                Ok("webp")
            } else if same_text(content_type, "image/tiff") {
                Ok("tif")
            } else {
                Err(DownloadError::UnsupportedContentType)
            }
        },
    }
}

/// The file that an image is stored in: `destination`, a dot, and the
/// extension that the response's content type calls for.
pub fn destination_file(destination: &str, content_type: Option<&str>) -> (file: Result<
    String,
    DownloadError,
>)
    ensures
        match extension_for(content_type.deep_view()) {
            Some(extension) => file is Ok && file->Ok_0@ == destination@ + seq!['.'] + extension,
            None => file == Err::<String, DownloadError>(DownloadError::UnsupportedContentType),
        },
{
    match get_extension(content_type) {
        Ok(extension) => {
            let mut file = destination.to_owned();
            proof {
                reveal_strlit(".");
                assert("."@ =~= seq!['.']);
            }
            file.append(".");
            file.append(extension);
            Ok(file)
        },
        Err(e) => Err(e),
    }
}

/// Whether `c` is a decimal digit or a letter from `a` to `f`.
pub open spec fn is_lower_hex(c: char) -> bool {
    ('0' <= c && c <= '9') || ('a' <= c && c <= 'f')
}

/// Whether `id` has the shape of a UUID in text: 36 characters, hyphens at
/// the places 8, 13, 18 and 23, and lower-case hexadecimal digits elsewhere.
pub open spec fn is_uuid_text(id: Seq<char>) -> bool {
    &&& id.len() == 36
    &&& forall|i: int|
        0 <= i < 36 ==> if i == 8 || i == 13 || i == 18 || i == 23 {
            #[trigger] id[i] == '-'
        } else {
            is_lower_hex(id[i])
        }
}

/// A new id for a catalog entry.
///
/// Calls `uuid::Uuid::new_v4` and formats the result with `to_string`. The id
/// is random, so the contract states only its shape, which is that of the
/// crate's hyphenated lower-case format. The call panics where the operating
/// system cannot supply random bytes.
#[verifier::external_body]
fn fresh_id() -> (id: String)
    ensures
        is_uuid_text(id@),
{
    uuid::Uuid::new_v4().to_string()
}

/// The mathematical value of an [`ImageCatalog`]: its entries, each an id
/// with its image, in the order in which their ids came in.
pub struct CatalogView {
    pub entries: Seq<(Seq<char>, ImageView)>,
}

impl CatalogView {
    /// The catalog without entries.
    pub open spec fn empty() -> CatalogView {
        CatalogView { entries: Seq::empty() }
    }

    /// The number of entries.
    pub open spec fn len(self) -> nat {
        self.entries.len()
    }

    /// Whether an entry has the id `id`.
    pub open spec fn contains(self, id: Seq<char>) -> bool {
        exists|i: int| 0 <= i < self.entries.len() && (#[trigger] self.entries[i]).0 == id
    }

    /// Where the entry with the id `id` stands, if there is one.
    pub open spec fn position(self, id: Seq<char>) -> int {
        choose|i: int| 0 <= i < self.entries.len() && (#[trigger] self.entries[i]).0 == id
    }

    /// The image under the id `id`, if there is one.
    pub open spec fn image(self, id: Seq<char>) -> ImageView {
        self.entries[self.position(id)].1
    }

    /// The invariant of a catalog: no two entries share an id.
    pub open spec fn wf(self) -> bool {
        forall|i: int, j: int|
            0 <= i < j < self.entries.len() ==> (#[trigger] self.entries[i]).0 != (
            #[trigger] self.entries[j]).0
    }

    /// The catalog after `image` came in under `id`: a new entry at the end,
    /// or, where `id` had an entry, that entry with the new image.
    pub open spec fn insert(self, id: Seq<char>, image: ImageView) -> CatalogView {
        if self.contains(id) {
            CatalogView { entries: self.entries.update(self.position(id), (id, image)) }
        } else {
            CatalogView { entries: self.entries.push((id, image)) }
        }
    }

    /// The first `count` entries, or all of them where there are fewer.
    pub open spec fn first(self, count: nat) -> Seq<(Seq<char>, ImageView)> {
        if count < self.entries.len() {
            self.entries.take(count as int)
        } else {
            self.entries
        }
    }

    /// In a well-formed catalog an entry is found at its own place.
    pub proof fn lemma_position(self, at: int)
        requires
            self.wf(),
            0 <= at < self.entries.len(),
        ensures
            self.contains(self.entries[at].0),
            self.position(self.entries[at].0) == at,
    {
        let id = self.entries[at].0;
        let found = self.position(id);
        assert(0 <= found < self.entries.len() && self.entries[found].0 == id);
        if found < at {
            assert(self.entries[found].0 != self.entries[at].0);
        } else if at < found {
            assert(self.entries[at].0 != self.entries[found].0);
        }
    }

    /// An insertion keeps the catalog well-formed, puts the image under the id
    /// and leaves the other ids as they were.
    pub proof fn lemma_insert(self, id: Seq<char>, image: ImageView)
        requires
            self.wf(),
        ensures
            self.insert(id, image).wf(),
            self.insert(id, image).contains(id),
            self.insert(id, image).image(id) == image,
            self.insert(id, image).len() == if self.contains(id) {
                self.len()
            } else {
                self.len() + 1
            },
            forall|other: Seq<char>|
                other != id ==> (#[trigger] self.insert(id, image).contains(other)
                    == self.contains(other)),
            forall|other: Seq<char>|
                other != id && self.contains(other) ==> #[trigger] self.insert(id, image).image(
                    other,
                ) == self.image(other),
    {
        let after = self.insert(id, image);
        let at = if self.contains(id) {
            self.position(id)
        } else {
            self.entries.len() as int
        };
        assert(after.entries[at] == (id, image));
        assert(after.wf()) by {
            assert forall|i: int, j: int| 0 <= i < j < after.entries.len() implies (
            #[trigger] after.entries[i]).0 != (#[trigger] after.entries[j]).0 by {
                if j < self.entries.len() {
                    assert(self.entries[i].0 != self.entries[j].0);
                } else {
                    assert(self.entries[i].0 != id);
                }
            }
        }
        after.lemma_position(at);
        assert forall|other: Seq<char>| other != id implies (#[trigger] after.contains(other)
            == self.contains(other)) by {
            if after.contains(other) {
                let i = after.position(other);
                assert(self.entries[i].0 == other);
            }
            if self.contains(other) {
                let i = self.position(other);
                assert(after.entries[i].0 == other);
            }
        }
        assert forall|other: Seq<char>| other != id && self.contains(other) implies #[trigger] after.image(
            other,
        ) == self.image(other) by {
            let i = self.position(other);
            assert(after.entries[i] == self.entries[i]);
            after.lemma_position(i);
        }
    }
}

/// The images of all `nodes`, node after node.
pub open spec fn all_images(nodes: Seq<LinkView>) -> Seq<ImageView>
    decreases nodes.len(),
{
    if nodes.len() == 0 {
        Seq::empty()
    } else {
        all_images(nodes.drop_last()) + nodes.last().images
    }
}

/// The catalog that holds each of `images` under the id at the same place in
/// `ids`, the images having come in in their order.
pub open spec fn cataloged(images: Seq<ImageView>, ids: Seq<Seq<char>>) -> CatalogView
    decreases images.len(),
{
    if images.len() == 0 {
        CatalogView::empty()
    } else {
        cataloged(images.drop_last(), ids.drop_last()).insert(ids.last(), images.last())
    }
}

/// Where the ids differ from one another nothing is replaced: the catalog
/// holds every image, in order, each under its own id.
pub proof fn lemma_distinct_ids_catalog_all(images: Seq<ImageView>, ids: Seq<Seq<char>>)
    requires
        ids.len() == images.len(),
        forall|i: int, j: int| 0 <= i < j < ids.len() ==> #[trigger] ids[i] != #[trigger] ids[j],
    ensures
        cataloged(images, ids).wf(),
        cataloged(images, ids).entries.len() == images.len(),
        forall|k: int|
            0 <= k < images.len() ==> #[trigger] cataloged(images, ids).entries[k] == (
                ids[k],
                images[k],
            ),
    decreases images.len(),
{
    if images.len() > 0 {
        let fewer = cataloged(images.drop_last(), ids.drop_last());
        lemma_distinct_ids_catalog_all(images.drop_last(), ids.drop_last());
        if fewer.contains(ids.last()) {
            let at = fewer.position(ids.last());
            assert(fewer.entries[at].0 == ids.drop_last()[at]);
            assert(ids[at] != ids[ids.len() - 1]);
        }
        fewer.lemma_insert(ids.last(), images.last());
    }
}

/// Whether `ids` are `count` generated ids.
pub open spec fn generated(ids: Seq<Seq<char>>, count: nat) -> bool {
    &&& ids.len() == count
    &&& forall|k: int| 0 <= k < ids.len() ==> is_uuid_text(#[trigger] ids[k])
}

/// The images that a crawl found, each under a generated id.
#[derive(Debug)]
pub struct ImageCatalog {
    entries: Vec<(String, Image)>,
}

impl View for ImageCatalog {
    type V = CatalogView;

    closed spec fn view(&self) -> CatalogView {
        CatalogView { entries: self.entries.deep_view() }
    }
}

/// The position of the entry with the id `id`.
fn find_id(entries: &Vec<(String, Image)>, id: &str) -> (found: Option<usize>)
    ensures
        match found {
            Some(at) => at < entries@.len() && entries@[at as int].0@ == id@,
            None => forall|i: int| 0 <= i < entries@.len() ==> (#[trigger] entries@[i]).0@ != id@,
        },
{
    let mut i: usize = 0;
    while i < entries.len()
        invariant
            i <= entries@.len(),
            forall|j: int| 0 <= j < i ==> (#[trigger] entries@[j]).0@ != id@,
        decreases entries@.len() - i,
    {
        if same_text(entries[i].0.as_str(), id) {
            return Some(i);
        }
        i += 1;
    }
    None
}

impl ImageCatalog {
    /// Holds of every catalog.
    #[verifier::type_invariant]
    pub open spec fn well_formed(self) -> bool {
        self@.wf()
    }

    /// A catalog without entries.
    pub fn new() -> (catalog: ImageCatalog)
        ensures
            catalog@ == CatalogView::empty(),
    {
        let catalog = ImageCatalog { entries: Vec::new() };
        assert(catalog@.entries =~= Seq::empty());
        catalog
    }

    /// The number of entries.
    pub fn len(&self) -> (count: usize)
        ensures
            count == self@.len(),
    {
        self.entries.len()
    }

    /// The image under the id `id`, if there is one.
    pub fn get(&self, id: &str) -> (image: Option<&Image>)
        ensures
            match image {
                Some(image) => self@.contains(id@) && image@ == self@.image(id@),
                None => !self@.contains(id@),
            },
    {
        proof {
            use_type_invariant(self);
        }
        match find_id(&self.entries, id) {
            Some(at) => {
                proof {
                    assert(self@.entries[at as int].0 == id@);
                    self@.lemma_position(at as int);
                }
                Some(&self.entries[at].1)
            },
            None => {
                proof {
                    if self@.contains(id@) {
                        let k = self@.position(id@);
                        assert(self.entries@[k].0@ == id@);
                    }
                }
                None
            },
        }
    }

    /// All entries, each an id with its image, in the order in which their ids
    /// came in.
    pub fn entries(&self) -> (entries: &Vec<(String, Image)>)
        ensures
            entries.deep_view() == self@.entries,
            self@.wf(),
    {
        proof {
            use_type_invariant(self);
        }
        &self.entries
    }

    /// Puts `image` under `id`. An image that was under `id` before is
    /// replaced.
    pub fn insert(&mut self, id: String, image: Image)
        ensures
            final(self)@ == old(self)@.insert(id@, image@),
            final(self)@.wf(),
    {
        proof {
            use_type_invariant(&*self);
            self@.lemma_insert(id@, image@);
        }
        let ghost before = self@;
        let mut entries: Vec<(String, Image)> = Vec::new();
        std::mem::swap(&mut self.entries, &mut entries);
        match find_id(&entries, id.as_str()) {
            Some(at) => {
                proof {
                    assert(before.entries[at as int].0 == id@);
                    before.lemma_position(at as int);
                }
                entries.set(at, (id, image));
            },
            None => {
                proof {
                    if before.contains(id@) {
                        let k = before.position(id@);
                        assert(entries@[k].0@ == id@);
                    }
                }
                entries.push((id, image));
            },
        }
        assert(entries.deep_view() =~= before.insert(id@, image@).entries);
        self.entries = entries;
    }
}

impl Default for ImageCatalog {
    fn default() -> (catalog: ImageCatalog)
        ensures
            catalog@ == CatalogView::empty(),
    {
        ImageCatalog::new()
    }
}

/// Catalogs every image of every node of `links` under a newly generated id.
///
/// The ids are random. Whatever they are, the catalog is the one that holds
/// the graph's images, node after node, each under the id generated for it.
/// An image that stands on several pages is cataloged once for each.
pub fn convert_links_to_images(links: &LinkGraph) -> (catalog: ImageCatalog)
    ensures
        exists|ids: Seq<Seq<char>>|
            generated(ids, all_images(links@.nodes).len()) && catalog@ == #[trigger] cataloged(
                all_images(links@.nodes),
                ids,
            ),
        catalog@.wf(),
{
    let nodes = links.links();
    let mut catalog = ImageCatalog::new();
    let ghost mut ids: Seq<Seq<char>> = Seq::empty();
    let mut i: usize = 0;
    while i < nodes.len()
        invariant
            i <= nodes@.len(),
            nodes.deep_view() == links@.nodes,
            generated(ids, all_images(links@.nodes.take(i as int)).len()),
            catalog@ == cataloged(all_images(links@.nodes.take(i as int)), ids),
            catalog@.wf(),
        decreases nodes@.len() - i,
    {
        let images = &nodes[i].images;
        let ghost seen = all_images(links@.nodes.take(i as int));
        let mut j: usize = 0;
        assert(seen + images.deep_view().take(0) =~= seen);
        while j < images.len()
            invariant
                j <= images@.len(),
                generated(ids, (seen + images.deep_view().take(j as int)).len()),
                catalog@ == cataloged(seen + images.deep_view().take(j as int), ids),
                catalog@.wf(),
            decreases images@.len() - j,
        {
            let id = fresh_id();
            let image = images[j].clone();
            proof {
                let before = seen + images.deep_view().take(j as int);
                let after = seen + images.deep_view().take(j + 1);
                assert(after.drop_last() =~= before);
                assert(after.last() == image@);
                assert(ids.push(id@).drop_last() =~= ids);
                ids = ids.push(id@);
            }
            catalog.insert(id, image);
            j += 1;
        }
        proof {
            let upto = links@.nodes.take(i + 1);
            assert(upto.drop_last() =~= links@.nodes.take(i as int));
            assert(upto.last().images == images.deep_view());
            assert(images.deep_view().take(images@.len() as int) =~= images.deep_view());
        }
        i += 1;
    }
    assert(links@.nodes.take(nodes@.len() as int) =~= links@.nodes);
    catalog
}

/// One image to download: the name to store it under, which still lacks the
/// extension, and the address to fetch it from.
#[derive(Debug, PartialEq, Eq)]
pub struct Download {
    pub name: String,
    pub link: String,
}

/// The mathematical value of a [`Download`].
pub struct DownloadView {
    pub name: Seq<char>,
    pub link: Seq<char>,
}

impl View for Download {
    type V = DownloadView;

    open spec fn view(&self) -> DownloadView {
        DownloadView { name: self.name@, link: self.link@ }
    }
}

impl DeepView for Download {
    type V = DownloadView;

    open spec fn deep_view(&self) -> DownloadView {
        self@
    }
}

/// The downloads that `entries` call for: each entry's image, fetched from
/// its address and stored under the entry's id.
pub open spec fn downloads_of(entries: Seq<(Seq<char>, ImageView)>) -> Seq<DownloadView> {
    Seq::new(
        entries.len(),
        |k: int| DownloadView { name: entries[k].0, link: entries[k].1.link },
    )
}

/// The images of `images` that are to be downloaded when at most
/// `max_images` may be: the first `max_images` entries of the catalog, or all
/// of them where it has fewer.
pub fn download_images(images: &ImageCatalog, max_images: u64) -> (batch: Vec<Download>)
    ensures
        batch.deep_view() == downloads_of(images@.first(max_images as nat)),
{
    let entries = images.entries();
    let count = if max_images < entries.len() as u64 {
        max_images as usize
    } else {
        entries.len()
    };
    let ghost chosen = images@.first(max_images as nat);
    assert(chosen =~= images@.entries.take(count as int));
    let mut batch: Vec<Download> = Vec::new();
    let mut i: usize = 0;
    while i < count
        invariant
            i <= count <= entries@.len(),
            entries.deep_view() == images@.entries,
            batch.deep_view() == downloads_of(images@.entries.take(i as int)),
        decreases count - i,
    {
        let entry = &entries[i];
        let download = Download { name: entry.0.clone(), link: entry.1.link.clone() };
        proof {
            assert(entries.deep_view()[i as int] == (entry.0@, entry.1@));
            let wanted = downloads_of(images@.entries.take(i + 1));
            assert(wanted[i as int] == download@);
            assert(wanted =~= downloads_of(images@.entries.take(i as int)).push(download@));
        }
        batch.push(download);
        assert(batch.deep_view() =~= downloads_of(images@.entries.take(i + 1)));
        i += 1;
    }
    batch
}

} // verus!
