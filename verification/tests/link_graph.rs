use murkmaw::model::link_graph::{GraphError, LinkGraph};
use murkmaw::model::{IdAllocator, Image, Link};

fn text(s: &str) -> String {
    s.to_string()
}

fn image(link: &str, alt: &str) -> Image {
    Image::new(text(link), text(alt))
}

#[test]
fn new_graph_is_empty() {
    let graph = LinkGraph::new();
    assert_eq!(graph.len(), 0);
    assert!(graph.links().is_empty());
    assert!(!graph.link_visited("https://a.test/"));
    assert_eq!(graph.link_id("https://a.test/"), None);
    assert!(graph.get("https://a.test/").is_none());
    assert_eq!(LinkGraph::default().len(), 0);
}

#[test]
fn merge_creates_one_node() {
    let mut graph = LinkGraph::new();
    let images = vec![image("https://a.test/img.png", "")];
    let titles = vec![text("Home")];
    let children = vec![text("https://a.test/b")];
    assert_eq!(graph.update("https://a.test/", "", &children, &images, &titles), Ok(()));
    assert_eq!(graph.len(), 1);
    assert!(graph.link_visited("https://a.test/"));
    assert!(!graph.link_visited("https://a.test/b"));
    let node = graph.get("https://a.test/").unwrap();
    assert_eq!(node.id, 0);
    assert_eq!(node.url, "https://a.test/");
    assert_eq!(node.titles, vec![text("Home")]);
    assert_eq!(node.images, vec![image("https://a.test/img.png", "")]);
    assert!(node.children.is_empty());
    assert!(node.parents.is_empty());
}

#[test]
fn visited_is_false_before_and_true_after_merge() {
    let mut graph = LinkGraph::new();
    assert!(!graph.link_visited("https://a.test/b"));
    graph.update("https://a.test/", "", &[text("https://a.test/b")], &[], &[]).unwrap();
    assert!(!graph.link_visited("https://a.test/b"));
    graph.update("https://a.test/c", "https://a.test/", &[], &[], &[]).unwrap();
    assert!(!graph.link_visited("https://a.test/b"));
    graph.update("https://a.test/b", "https://a.test/", &[], &[], &[]).unwrap();
    assert!(graph.link_visited("https://a.test/b"));
    graph.update("https://a.test/d", "https://a.test/b", &[], &[], &[]).unwrap();
    assert!(graph.link_visited("https://a.test/b"));
}

#[test]
fn identity_is_stable_across_merges() {
    let mut graph = LinkGraph::new();
    graph.update("https://a.test/", "", &[], &[], &[]).unwrap();
    graph.update("https://a.test/b", "https://a.test/", &[], &[], &[]).unwrap();
    let a = graph.link_id("https://a.test/").unwrap();
    let b = graph.link_id("https://a.test/b").unwrap();
    assert_eq!((a, b), (0, 1));
    for round in 0..5 {
        let other = format!("https://a.test/page{}", round);
        graph.update(&other, "https://a.test/b", &[text("https://a.test/")], &[], &[]).unwrap();
        graph.update("https://a.test/", "https://a.test/b", &[], &[], &[text("again")]).unwrap();
        assert_eq!(graph.link_id("https://a.test/"), Some(a));
        assert_eq!(graph.link_id("https://a.test/b"), Some(b));
        assert_eq!(graph.link_id(&other), Some(2 + round));
    }
    assert_eq!(graph.len(), 7);
}

#[test]
fn merging_through_a_known_parent_links_both_ways() {
    let mut graph = LinkGraph::new();
    graph.update("https://p.test/", "", &[], &[], &[]).unwrap();
    graph.update("https://c.test/", "https://p.test/", &[], &[], &[]).unwrap();
    let parent = graph.get("https://p.test/").unwrap();
    let child = graph.get("https://c.test/").unwrap();
    assert_eq!(child.parents, vec![parent.id]);
    assert_eq!(parent.children, vec![child.id]);
    assert!(parent.parents.is_empty());
    assert!(child.children.is_empty());
}

#[test]
fn unknown_parent_leaves_no_edge() {
    let mut graph = LinkGraph::new();
    graph.update("https://c.test/", "https://p.test/", &[], &[], &[]).unwrap();
    assert_eq!(graph.len(), 1);
    assert!(!graph.link_visited("https://p.test/"));
    assert!(graph.get("https://c.test/").unwrap().parents.is_empty());
    graph.update("https://p.test/", "", &[], &[], &[]).unwrap();
    assert!(graph.get("https://c.test/").unwrap().parents.is_empty());
    assert!(graph.get("https://p.test/").unwrap().children.is_empty());
}

#[test]
fn only_known_children_become_edges() {
    let mut graph = LinkGraph::new();
    graph.update("https://a.test/", "", &[text("https://a.test/b")], &[], &[]).unwrap();
    assert!(graph.get("https://a.test/").unwrap().children.is_empty());
    let children = vec![
        text("https://a.test/"),
        text("https://a.test/unseen"),
        text("https://a.test/b"),
        text("https://a.test/"),
    ];
    graph.update("https://a.test/b", "https://a.test/", &children, &[], &[]).unwrap();
    let a = graph.get("https://a.test/").unwrap();
    let b = graph.get("https://a.test/b").unwrap();
    assert_eq!(b.children, vec![a.id, a.id]);
    assert_eq!(b.parents, vec![a.id]);
    assert_eq!(a.children, vec![b.id]);
}

#[test]
fn a_page_that_is_its_own_parent() {
    let mut graph = LinkGraph::new();
    graph.update("https://a.test/", "https://a.test/", &[text("https://a.test/")], &[], &[]).unwrap();
    let first = graph.get("https://a.test/").unwrap();
    assert!(first.parents.is_empty());
    assert!(first.children.is_empty());
    graph.update("https://a.test/", "https://a.test/", &[text("https://a.test/")], &[], &[]).unwrap();
    let again = graph.get("https://a.test/").unwrap();
    assert_eq!(again.parents, vec![0]);
    assert_eq!(again.children, vec![0, 0]);
    assert_eq!(graph.len(), 1);
}

#[test]
fn merging_twice_appends_and_never_replaces() {
    let mut graph = LinkGraph::new();
    graph.update("https://a.test/", "", &[], &[image("https://a.test/1.png", "one")], &[text("T1")]).unwrap();
    graph.update("https://a.test/", "", &[], &[image("https://a.test/1.png", "one")], &[text("T2")]).unwrap();
    let node = graph.get("https://a.test/").unwrap();
    assert_eq!(node.titles, vec![text("T1"), text("T2")]);
    assert_eq!(
        node.images,
        vec![image("https://a.test/1.png", "one"), image("https://a.test/1.png", "one")]
    );
    assert_eq!(graph.len(), 1);
}

#[test]
fn links_come_in_order_of_first_sight() {
    let mut graph = LinkGraph::with_allocator(IdAllocator::starting_at(100));
    graph.update("https://a.test/3", "", &[], &[], &[]).unwrap();
    graph.update("https://a.test/1", "", &[], &[], &[]).unwrap();
    graph.update("https://a.test/3", "", &[], &[], &[]).unwrap();
    graph.update("https://a.test/2", "", &[], &[], &[]).unwrap();
    let seen: Vec<(u64, &str)> = graph.links().iter().map(|l| (l.id, l.url.as_str())).collect();
    assert_eq!(
        seen,
        vec![(100, "https://a.test/3"), (101, "https://a.test/1"), (102, "https://a.test/2")]
    );
}

#[test]
fn exhausted_allocator_is_refused() {
    let mut graph = LinkGraph::with_allocator(IdAllocator::starting_at(u64::MAX));
    assert_eq!(graph.update("https://a.test/", "", &[], &[], &[]), Ok(()));
    assert_eq!(graph.link_id("https://a.test/"), Some(u64::MAX));
    assert_eq!(
        graph.update("https://a.test/b", "https://a.test/", &[], &[], &[text("lost")]),
        Err(GraphError::DuplicateIdentity)
    );
    assert_eq!(graph.len(), 1);
    assert!(!graph.link_visited("https://a.test/b"));
    assert!(graph.get("https://a.test/").unwrap().children.is_empty());
    assert_eq!(graph.update("https://a.test/", "https://a.test/", &[], &[], &[]), Ok(()));
    assert_eq!(graph.get("https://a.test/").unwrap().children, vec![u64::MAX]);
    assert_eq!(GraphError::DuplicateIdentity.message(), "link already exists");
}

#[test]
fn allocator_counts_up_and_stops_at_the_top() {
    let mut ids = IdAllocator::new();
    assert_eq!(ids.peek(), 0);
    assert_eq!(ids.next_id(), 0);
    assert_eq!(ids.next_id(), 1);
    assert_eq!(ids.peek(), 2);
    let mut last = IdAllocator::starting_at(u64::MAX - 1);
    assert_eq!(last.next_id(), u64::MAX - 1);
    assert_eq!(last.next_id(), u64::MAX);
    assert_eq!(last.next_id(), u64::MAX);
    assert_eq!(last.peek(), u64::MAX);
}

#[test]
fn link_new_takes_the_next_id() {
    let mut ids = IdAllocator::starting_at(7);
    let first = Link::new(
        &mut ids,
        text("https://a.test/"),
        vec![1, 2],
        vec![3],
        vec![image("https://a.test/i.png", "i")],
        vec![text("t")],
    );
    let second = Link::new(&mut ids, text("https://b.test/"), vec![], vec![], vec![], vec![]);
    assert_eq!(first.id, 7);
    assert_eq!(first.url, "https://a.test/");
    assert_eq!(first.children, vec![1, 2]);
    assert_eq!(first.parents, vec![3]);
    assert_eq!(first.images, vec![image("https://a.test/i.png", "i")]);
    assert_eq!(first.titles, vec![text("t")]);
    assert_eq!(second.id, 8);
    assert_eq!(ids.peek(), 9);
}

#[test]
fn addresses_are_compared_as_text() {
    let mut graph = LinkGraph::new();
    graph.update("https://a.test/", "", &[], &[], &[]).unwrap();
    assert!(!graph.link_visited("https://a.test"));
    assert!(!graph.link_visited("https://A.test/"));
    assert!(!graph.link_visited(""));
    assert!(graph.link_visited("https://a.test/"));
}
