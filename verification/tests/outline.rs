use viewkai::{Bookmark, Destination, Outline, OutlineNodeId, OutlinePlugin, PageIndex};

type Pos = (f32, f32);

fn leaf(title: &str, page: usize) -> Bookmark<Pos> {
    Bookmark {
        title: title.to_string(),
        destination: Some(Destination { page: PageIndex(page), position: None }),
        children: vec![],
    }
}

fn tree() -> Vec<Bookmark<Pos>> {
    vec![
        Bookmark {
            title: "Root 1".to_string(),
            destination: Some(Destination { page: PageIndex(0), position: Some((1.0, 2.0)) }),
            children: vec![leaf("A", 1), Bookmark { title: "B".to_string(), destination: None, children: vec![leaf("B1", 3)] }],
        },
        leaf("Root 2", 4),
        leaf("Root 3", 5),
    ]
}

#[test]
fn show_toolbar_toggles_outline_panel() {
    let mut plugin = OutlinePlugin::<Pos>::new();
    assert!(plugin.visible());
    plugin.set_visible(true);
    assert!(plugin.visible());
    plugin.set_visible(false);
    assert!(!plugin.visible());
}

#[test]
fn goto_destination_emits_expected_target() {
    let mut plugin = OutlinePlugin::<Pos>::new();
    plugin.set_pending_destination(Destination { page: PageIndex(2), position: Some((12.0, 34.0)) });
    let jump = plugin.begin_frame(&[PageIndex(1)]);
    assert_eq!(plugin.pending_destination(), None);
    assert_eq!(jump, Some(Destination { page: PageIndex(2), position: Some((12.0, 34.0)) }));
}

#[test]
fn flattening_numbers_nodes_in_pre_order() {
    let outline = Outline::from_bookmarks(tree());
    assert!(!outline.is_empty());
    let titles: Vec<&str> = outline.nodes.iter().map(|n| n.title.as_str()).collect();
    assert_eq!(titles, vec!["Root 1", "A", "B", "B1", "Root 2", "Root 3"]);
    let ids: Vec<u32> = outline.nodes.iter().map(|n| n.id.0).collect();
    assert_eq!(ids, vec![0, 1, 2, 3, 4, 5]);
    assert_eq!(outline.roots, vec![OutlineNodeId(0), OutlineNodeId(4), OutlineNodeId(5)]);
    assert_eq!(outline.nodes[0].children, vec![OutlineNodeId(1), OutlineNodeId(2)]);
    assert_eq!(outline.nodes[2].children, vec![OutlineNodeId(3)]);
    assert_eq!(outline.nodes[3].parent, Some(OutlineNodeId(2)));
    assert_eq!(outline.nodes[1].parent, Some(OutlineNodeId(0)));
    assert_eq!(outline.nodes[4].parent, None);
    for node in &outline.nodes {
        for child in &node.children {
            assert_eq!(outline.node(*child).unwrap().parent, Some(node.id));
        }
    }
    assert_eq!(outline.node(OutlineNodeId(3)).unwrap().title, "B1");
    assert!(outline.node(OutlineNodeId(6)).is_none());
}

#[test]
fn empty_outline() {
    let outline: Outline<Pos> = Outline::from_bookmarks(vec![]);
    assert!(outline.is_empty());
    assert!(Outline::<Pos>::default().is_empty());
}

#[test]
fn clicks_toggle_expansion_and_queue_jumps() {
    let mut plugin = OutlinePlugin::<Pos>::new();
    assert!(!plugin.is_expanded(OutlineNodeId(0)));
    plugin.on_node_clicked(OutlineNodeId(0), true, None);
    assert!(plugin.is_expanded(OutlineNodeId(0)));
    assert_eq!(plugin.pending_destination(), None);
    plugin.on_node_clicked(OutlineNodeId(0), true, Some(Destination { page: PageIndex(3), position: None }));
    assert!(!plugin.is_expanded(OutlineNodeId(0)));
    assert_eq!(plugin.pending_destination().unwrap().page, PageIndex(3));
    plugin.on_node_clicked(OutlineNodeId(7), false, Some(Destination { page: PageIndex(9), position: None }));
    assert!(!plugin.is_expanded(OutlineNodeId(7)));
    assert_eq!(plugin.pending_destination().unwrap().page, PageIndex(9));
    let dest = Some(Destination { page: PageIndex(4), position: None });
    assert!(!plugin.is_current(&dest));
    assert!(plugin.begin_frame(&[PageIndex(4), PageIndex(5)]).is_some());
    assert!(plugin.is_current(&dest));
    assert!(plugin.begin_frame(&[]).is_none());
    assert!(plugin.is_current(&dest));
}
