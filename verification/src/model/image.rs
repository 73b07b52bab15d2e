use vstd::prelude::*;

verus! {

/// An image found on a page: its absolute address and its alternative text.
#[derive(Debug, PartialEq, Eq)]
pub struct Image {
    pub link: String,
    pub alt: String,
}

/// The mathematical value of an [`Image`].
pub struct ImageView {
    pub link: Seq<char>,
    pub alt: Seq<char>,
}

impl View for Image {
    type V = ImageView;

    open spec fn view(&self) -> ImageView {
        ImageView { link: self.link@, alt: self.alt@ }
    }
}

impl DeepView for Image {
    type V = ImageView;

    open spec fn deep_view(&self) -> ImageView {
        self@
    }
}

impl Clone for Image {
    fn clone(&self) -> (copy: Image)
        ensures
            copy == *self,
    {
        Image { link: self.link.clone(), alt: self.alt.clone() }
    }
}

impl Image {
    pub fn new(link: String, alt: String) -> (image: Image)
        ensures
            image.link == link,
            image.alt == alt,
    {
        Image { link, alt }
    }
}

} // verus!
