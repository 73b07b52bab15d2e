//! A bounded web crawler's core: the link graph that pages are merged into,
//! the scraper that turns a fetched page into links, images and titles, the
//! crawl coordinator that decides what each worker does next, what holds of
//! a crawl by several workers, and the image catalog with its download rules.
//!
//! Network and file I/O are left to the caller. Every function here is a
//! computation on plain values, and its contract is proved.

pub mod crawler;
pub mod crew;
pub mod image_utils;
pub mod model;
pub mod scraper;
mod text;
