//! The scraper: what a fetched page contributes.
//!
//! The page is fetched by the caller. From the response this module takes the
//! links, and on request the images and the titles, and resolves every
//! address against the page's own address.

use vstd::prelude::*;
use crate::model::image::{Image, ImageView};

verus! {

/// What the `url` crate's `Url::parse` makes of `input`: the serialization of
/// the absolute URL that it parsed, or nothing where it returned an error.
pub uninterp spec fn url_parse(input: Seq<char>) -> Option<Seq<char>>;

/// What the `url` crate's `Url::join` makes of `reference` on the URL that
/// `Url::parse` parsed from `base`: the serialization of the URL, or nothing
/// where either returned an error.
pub uninterp spec fn url_join(base: Seq<char>, reference: Seq<char>) -> Option<Seq<char>>;

/// What the `scraper` crate finds when it parses `body` as an HTML document
/// and selects with the CSS selector `selector`: for each element that
/// matches, in the order in which the crate yields them, the values of its
/// attributes `first` and `second`, each nothing where the element has no such
/// attribute. Nothing at all where the crate refuses the selector.
pub uninterp spec fn html_select_attrs(
    body: Seq<char>,
    selector: Seq<char>,
    first: Seq<char>,
    second: Seq<char>,
) -> Option<Seq<(Option<Seq<char>>, Option<Seq<char>>)>>;

/// What the `scraper` crate finds when it parses `body` as an HTML document
/// and selects with the CSS selector `selector`: for each element that
/// matches, in the order in which the crate yields them, the text nodes below
/// it. Nothing at all where the crate refuses the selector.
pub uninterp spec fn html_select_texts(body: Seq<char>, selector: Seq<char>) -> Option<
    Seq<Seq<Seq<char>>>,
>;

/// Parses `input` as an absolute URL and gives its serialization.
///
/// Calls `url::Url::parse`. The contract names the result: the URL parser is
/// not described here.
#[verifier::external_body]
pub(crate) fn parse_url(input: &str) -> (parsed: Option<String>)
    ensures
        parsed.deep_view() == url_parse(input@),
{
    match url::Url::parse(input) {
        Ok(url) => Some(url.into()),
        Err(_) => None,
    }
}

/// Resolves `reference` against `base` and gives the serialization.
///
/// Calls `url::Url::join` on the URL that `url::Url::parse` makes of `base`.
/// The contract names the result.
#[verifier::external_body]
fn join_url(base: &str, reference: &str) -> (joined: Option<String>)
    ensures
        joined.deep_view() == url_join(base@, reference@),
{
    match url::Url::parse(base) {
        Ok(base) => match base.join(reference) {
            Ok(url) => Some(url.into()),
            Err(_) => None,
        },
        Err(_) => None,
    }
}

/// Selects elements of an HTML document and reads two attributes of each.
///
/// Calls `scraper::Html::parse_document` on `body`, `scraper::Selector::parse`
/// on `selector`, `Html::select`, and `ElementRef::attr` with `first` and with
/// `second` on each element that comes out. The contract names the result, as
/// a function of all four arguments: the HTML parser and the selector
/// matching are not described here.
#[verifier::external_body]
fn select_attrs(body: &str, selector: &str, first: &str, second: &str) -> (found: Option<
    Vec<(Option<String>, Option<String>)>,
>)
    ensures
        found.deep_view() == html_select_attrs(body@, selector@, first@, second@),
{
    let document = scraper::Html::parse_document(body);
    match scraper::Selector::parse(selector) {
        Ok(selector) => Some(
            document
                .select(&selector)
                .map(|e| (e.attr(first).map(String::from), e.attr(second).map(String::from)))
                .collect(),
        ),
        Err(_) => None,
    }
}

/// Selects elements of an HTML document and reads the text nodes of each.
///
/// Calls `scraper::Html::parse_document` on `body`, `scraper::Selector::parse`
/// on `selector`, `Html::select`, and `ElementRef::text` on each element that
/// comes out. The contract names the result, as a function of both arguments.
#[verifier::external_body]
fn select_texts(body: &str, selector: &str) -> (found: Option<Vec<Vec<String>>>)
    ensures
        found.deep_view() == html_select_texts(body@, selector@),
{
    let document = scraper::Html::parse_document(body);
    match scraper::Selector::parse(selector) {
        Ok(selector) => Some(
            document.select(&selector).map(|e| e.text().map(String::from).collect()).collect(),
        ),
        Err(_) => None,
    }
}

/// The absolute address that `reference`, found on the page `base`, stands
/// for: `reference` itself where it is an absolute URL, else `reference`
/// resolved against `base`, else nothing.
pub open spec fn resolved(base: Seq<char>, reference: Seq<char>) -> Option<Seq<char>> {
    match url_parse(reference) {
        Some(absolute) => Some(absolute),
        None => url_join(base, reference),
    }
}

/// Resolves an address found on the page `base`.
pub fn resolve(base: &str, reference: &str) -> (address: Option<String>)
    ensures
        address.deep_view() == resolved(base@, reference@),
{
    match parse_url(reference) {
        Some(absolute) => Some(absolute),
        None => join_url(base, reference),
    }
}

/// What a page may be scraped for. Links are always taken; images and titles
/// only on request.
#[derive(Debug, Clone, Copy, PartialEq, Eq, Structural)]
pub enum ScrapeOption {
    Links,
    Images,
    Titles,
}

/// How the request for a page ended.
#[derive(Debug)]
pub enum Fetched {
    /// No response came: the transport failed or the request timed out.
    Failed,
    /// A response came, with this status code and this body.
    Response { status: u16, body: String },
}

/// The mathematical value of a [`Fetched`].
pub enum FetchedView {
    Failed,
    Response { status: u16, body: Seq<char> },
}

impl View for Fetched {
    type V = FetchedView;

    open spec fn view(&self) -> FetchedView {
        match self {
            Fetched::Failed => FetchedView::Failed,
            Fetched::Response { status, body } => FetchedView::Response {
                status: *status,
                body: body@,
            },
        }
    }
}

/// What one page contributed: the absolute addresses it links to, its images
/// under their absolute addresses, and its titles.
#[derive(Debug, PartialEq, Eq)]
pub struct ScrapeResult {
    pub links: Vec<String>,
    pub images: Vec<Image>,
    pub titles: Vec<String>,
}

/// The mathematical value of a [`ScrapeResult`].
pub struct ScrapeView {
    pub links: Seq<Seq<char>>,
    pub images: Seq<ImageView>,
    pub titles: Seq<Seq<char>>,
}

impl View for ScrapeResult {
    type V = ScrapeView;

    open spec fn view(&self) -> ScrapeView {
        ScrapeView {
            links: self.links.deep_view(),
            images: self.images.deep_view(),
            titles: self.titles.deep_view(),
        }
    }
}

/// Whether a status code reports success: the codes from 200 to 299.
pub open spec fn success(status: u16) -> bool {
    200 <= status < 300
}

/// The image that an `img` element stands for, if its address resolved: the
/// resolved address, with the alternative text or, without one, no text.
pub open spec fn image_of(source: Option<Seq<char>>, alt: Option<Seq<char>>) -> Option<
    ImageView,
> {
    match source {
        Some(link) => Some(
            ImageView {
                link,
                alt: match alt {
                    Some(text) => text,
                    None => Seq::empty(),
                },
            },
        ),
        None => None,
    }
}

/// The absolute address that an attribute's value, found on the page `base`,
/// stands for. A missing attribute stands for none.
pub open spec fn resolved_value(base: Seq<char>, value: Option<Seq<char>>) -> Option<Seq<char>> {
    match value {
        Some(reference) => resolved(base, reference),
        None => None,
    }
}

/// What was selected, or nothing where the selector was refused.
pub open spec fn selected<T>(found: Option<Seq<T>>) -> Seq<T> {
    match found {
        Some(elements) => elements,
        None => Seq::empty(),
    }
}

/// The links of the page `base`, given its anchors, each with the value of
/// its `href`: the addresses that the values resolve to. An anchor whose
/// value does not resolve is left out.
pub open spec fn links_of(
    base: Seq<char>,
    anchors: Seq<(Option<Seq<char>>, Option<Seq<char>>)>,
) -> Seq<Seq<char>>
    decreases anchors.len(),
{
    if anchors.len() == 0 {
        Seq::empty()
    } else {
        match resolved_value(base, anchors.last().0) {
            Some(address) => links_of(base, anchors.drop_last()).push(address),
            None => links_of(base, anchors.drop_last()),
        }
    }
}

/// The images of the page `base`, given its `img` elements, each with the
/// values of its `src` and its `alt`. An element whose `src` does not resolve
/// is left out.
pub open spec fn images_of(
    base: Seq<char>,
    elements: Seq<(Option<Seq<char>>, Option<Seq<char>>)>,
) -> Seq<ImageView>
    decreases elements.len(),
{
    if elements.len() == 0 {
        Seq::empty()
    } else {
        match image_of(resolved_value(base, elements.last().0), elements.last().1) {
            Some(image) => images_of(base, elements.drop_last()).push(image),
            None => images_of(base, elements.drop_last()),
        }
    }
}

/// The text nodes `parts` of one element, joined into one text in their
/// order, with nothing between them.
pub open spec fn joined(parts: Seq<Seq<char>>) -> Seq<char>
    decreases parts.len(),
{
    if parts.len() == 0 {
        Seq::empty()
    } else {
        joined(parts.drop_last()) + parts.last()
    }
}

/// The titles of a page, given the text nodes of each of its heading and
/// title elements: one title for each element.
pub open spec fn titles_of(elements: Seq<Seq<Seq<char>>>) -> Seq<Seq<char>> {
    Seq::new(elements.len(), |i: int| joined(elements[i]))
}

impl ScrapeView {
    /// The contribution of a page on which nothing was found.
    pub open spec fn empty() -> ScrapeView {
        ScrapeView { links: Seq::empty(), images: Seq::empty(), titles: Seq::empty() }
    }
}

/// What the page `url` contributes, given how its request ended.
///
/// A request that failed, or a response whose status does not report
/// success, contributes nothing. Otherwise the body is read as HTML. The page
/// contributes the resolved `href` of every `a` element that has one. If
/// `options` asks for images, it contributes every `img` element that has a
/// `src`, under the resolved `src` and with its `alt`. If `options` asks for
/// titles, it contributes the text of every `h1`, `h2` and `title` element.
pub open spec fn scraped(url: Seq<char>, page: FetchedView, options: Seq<ScrapeOption>) -> ScrapeView {
    match page {
        FetchedView::Failed => ScrapeView::empty(),
        FetchedView::Response { status, body } => if success(status) {
            ScrapeView {
                links: links_of(
                    url,
                    selected(html_select_attrs(body, "a[href]"@, "href"@, "href"@)),
                ),
                images: if options.contains(ScrapeOption::Images) {
                    images_of(
                        url,
                        selected(html_select_attrs(body, "img[src]"@, "src"@, "alt"@)),
                    )
                } else {
                    Seq::empty()
                },
                titles: if options.contains(ScrapeOption::Titles) {
                    titles_of(selected(html_select_texts(body, "h1, h2, title"@)))
                } else {
                    Seq::empty()
                },
            }
        } else {
            ScrapeView::empty()
        },
    }
}

/// Whether `status` reports success.
pub fn is_success(status: u16) -> (ok: bool)
    ensures
        ok == success(status),
{
    200 <= status && status < 300
}

/// Whether `options` asks for `option`.
pub fn wants(options: &[ScrapeOption], option: ScrapeOption) -> (asked: bool)
    ensures
        asked == options@.contains(option),
{
    let mut i: usize = 0;
    while i < options.len()
        invariant
            i <= options@.len(),
            forall|j: int| 0 <= j < i ==> options@[j] != option,
        decreases options@.len() - i,
    {
        if options[i] == option {
            return true;
        }
        i += 1;
    }
    false
}

impl ScrapeResult {
    /// The contribution of a page on which nothing was found.
    pub fn new() -> (result: ScrapeResult)
        ensures
            result@ == ScrapeView::empty(),
    {
        let result = ScrapeResult { links: Vec::new(), images: Vec::new(), titles: Vec::new() };
        assert(result@.links =~= Seq::empty());
        assert(result@.images =~= Seq::empty());
        assert(result@.titles =~= Seq::empty());
        result
    }

    /// Adds a link, unless its address did not resolve.
    pub fn push_link(&mut self, address: Option<String>)
        ensures
            final(self)@.links == match address {
                Some(address) => old(self)@.links.push(address@),
                None => old(self)@.links,
            },
            final(self)@.images == old(self)@.images,
            final(self)@.titles == old(self)@.titles,
    {
        if let Some(address) = address {
            self.links.push(address);
            assert(self@.links =~= old(self)@.links.push(address@));
        }
    }

    /// Adds an image, unless its address did not resolve. An image without
    /// alternative text gets the empty text.
    pub fn push_image(&mut self, source: Option<String>, alt: Option<&str>)
        ensures
            final(self)@.images == match image_of(source.deep_view(), alt.deep_view()) {
                Some(image) => old(self)@.images.push(image),
                None => old(self)@.images,
            },
            final(self)@.links == old(self)@.links,
            final(self)@.titles == old(self)@.titles,
    {
        if let Some(link) = source {
            let alt = match alt {
                Some(text) => text.to_owned(),
                None => String::new(),
            };
            let image = Image::new(link, alt);
            self.images.push(image);
            assert(self@.images =~= old(self)@.images.push(image@));
        }
    }

    /// Adds a title.
    pub fn push_title(&mut self, title: String)
        ensures
            final(self)@.titles == old(self)@.titles.push(title@),
            final(self)@.links == old(self)@.links,
            final(self)@.images == old(self)@.images,
    {
        self.titles.push(title);
        assert(self@.titles =~= old(self)@.titles.push(title@));
    }
}

/// Resolves the value of an attribute found on the page `base`.
pub fn resolve_value(base: &str, value: &Option<String>) -> (address: Option<String>)
    ensures
        address.deep_view() == resolved_value(base@, value.deep_view()),
{
    match value {
        Some(reference) => resolve(base, reference.as_str()),
        None => None,
    }
}

/// Joins the text nodes of one element into one text.
pub fn join_texts(parts: &Vec<String>) -> (text: String)
    ensures
        text@ == joined(parts.deep_view()),
{
    let mut text = String::new();
    let mut i: usize = 0;
    while i < parts.len()
        invariant
            i <= parts@.len(),
            text@ == joined(parts.deep_view().take(i as int)),
        decreases parts@.len() - i,
    {
        let ghost prefix = parts.deep_view().take(i + 1);
        assert(prefix.drop_last() =~= parts.deep_view().take(i as int));
        assert(prefix.last() == parts@[i as int]@);
        text.append(parts[i].as_str());
        i += 1;
    }
    assert(parts.deep_view().take(parts@.len() as int) =~= parts.deep_view());
    text
}

/// Scrapes the page `url` from the response to its request.
pub fn scrape(url: &str, page: &Fetched, options: &[ScrapeOption]) -> (result: ScrapeResult)
    ensures
        result@ == scraped(url@, page@, options@),
{
    let mut result = ScrapeResult::new();
    let body = match page {
        Fetched::Failed => {
            return result;
        },
        Fetched::Response { status, body } => {
            if !is_success(*status) {
                return result;
            }
            body.as_str()
        },
    };
    let anchors = match select_attrs(body, "a[href]", "href", "href") {
        Some(found) => found,
        None => Vec::new(),
    };
    assert(anchors.deep_view() =~= selected(
        html_select_attrs(body@, "a[href]"@, "href"@, "href"@),
    ));
    let mut i: usize = 0;
    while i < anchors.len()
        invariant
            i <= anchors@.len(),
            result@.links == links_of(url@, anchors.deep_view().take(i as int)),
            result@.images == Seq::<ImageView>::empty(),
            result@.titles == Seq::<Seq<char>>::empty(),
        decreases anchors@.len() - i,
    {
        let ghost prefix = anchors.deep_view().take(i + 1);
        assert(prefix.drop_last() =~= anchors.deep_view().take(i as int));
        assert(prefix.last() == anchors@[i as int].deep_view());
        result.push_link(resolve_value(url, &anchors[i].0));
        i += 1;
    }
    assert(anchors.deep_view().take(anchors@.len() as int) =~= anchors.deep_view());
    if wants(options, ScrapeOption::Images) {
        let elements = match select_attrs(body, "img[src]", "src", "alt") {
            Some(found) => found,
            None => Vec::new(),
        };
        assert(elements.deep_view() =~= selected(
            html_select_attrs(body@, "img[src]"@, "src"@, "alt"@),
        ));
        let ghost links = result@.links;
        let mut i: usize = 0;
        while i < elements.len()
            invariant
                i <= elements@.len(),
                result@.links == links,
                result@.images == images_of(url@, elements.deep_view().take(i as int)),
                result@.titles == Seq::<Seq<char>>::empty(),
            decreases elements@.len() - i,
        {
            let ghost prefix = elements.deep_view().take(i + 1);
            assert(prefix.drop_last() =~= elements.deep_view().take(i as int));
            assert(prefix.last() == elements@[i as int].deep_view());
            let alt = match &elements[i].1 {
                Some(text) => Some(text.as_str()),
                None => None,
            };
            result.push_image(resolve_value(url, &elements[i].0), alt);
            i += 1;
        }
        assert(elements.deep_view().take(elements@.len() as int) =~= elements.deep_view());
    }
    if wants(options, ScrapeOption::Titles) {
        let headings = match select_texts(body, "h1, h2, title") {
            Some(found) => found,
            None => Vec::new(),
        };
        assert(headings.deep_view() =~= selected(html_select_texts(body@, "h1, h2, title"@)));
        let ghost links = result@.links;
        let ghost images = result@.images;
        let mut i: usize = 0;
        while i < headings.len()
            invariant
                i <= headings@.len(),
                result@.links == links,
                result@.images == images,
                result@.titles == titles_of(headings.deep_view().take(i as int)),
            decreases headings@.len() - i,
        {
            let title = join_texts(&headings[i]);
            assert(titles_of(headings.deep_view().take(i + 1)) =~= titles_of(
                headings.deep_view().take(i as int),
            ).push(title@));
            result.push_title(title);
            i += 1;
        }
        assert(headings.deep_view().take(headings@.len() as int) =~= headings.deep_view());
    }
    result
}

} // verus!
