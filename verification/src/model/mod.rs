//! The data model: images, links and the link graph.

pub mod graph_view;
pub mod image;
pub mod link_graph;
pub mod link;

pub use graph_view::{GraphView, Merge};
pub use image::{Image, ImageView};
pub use link::{IdAllocator, Link, LinkId, LinkView};
pub use link_graph::{GraphError, LinkGraph};
