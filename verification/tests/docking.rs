use freya::docking::{
    preview_area, tab_contexts, toggle_hover, ContentContext, Direction, DockDrag, DockNode, DockPanel,
    HoverTarget, PreviewArea, Side, TabContext,
};

fn panel(id: u32, tabs: Vec<u32>) -> DockPanel<u32, u32> {
    DockPanel::new(id, tabs)
}

fn tabs_of(node: &DockNode<u32, u32>, id: u32) -> Vec<u32> {
    node.panel(&id).unwrap().tabs.clone()
}

#[test]
fn new_panel_activates_its_first_tab() {
    let p = panel(1, vec![10, 11]);
    assert_eq!(p.panel_id, 1);
    assert_eq!(p.tabs, vec![10, 11]);
    assert_eq!(p.active_tab_id, Some(10));
    let empty = panel(2, vec![]);
    assert_eq!(empty.active_tab_id, None);
}

#[test]
fn insert_tab_moves_an_existing_tab() {
    let mut p = panel(1, vec![10, 11, 12]);
    p.insert_tab(10, 2);
    assert_eq!(p.tabs, vec![11, 10, 12]);
    assert_eq!(p.active_tab_id, Some(10));
    p.insert_tab(12, 0);
    assert_eq!(p.tabs, vec![12, 11, 10]);
    assert_eq!(p.active_tab_id, Some(12));
}

#[test]
fn insert_tab_clamps_the_position() {
    let mut p = panel(1, vec![10]);
    p.insert_tab(20, 99);
    assert_eq!(p.tabs, vec![10, 20]);
    assert_eq!(p.active_tab_id, Some(20));
}

#[test]
fn append_tab_puts_the_tab_last_once() {
    let mut p = panel(1, vec![10, 11, 12]);
    p.append_tab(10);
    assert_eq!(p.tabs, vec![11, 12, 10]);
    assert_eq!(p.active_tab_id, Some(10));
    p.append_tab(13);
    assert_eq!(p.tabs, vec![11, 12, 10, 13]);
}

#[test]
fn side_directions() {
    assert_eq!(Side::Left.direction(), Direction::Horizontal);
    assert_eq!(Side::Right.direction(), Direction::Horizontal);
    assert_eq!(Side::Top.direction(), Direction::Vertical);
    assert_eq!(Side::Bottom.direction(), Direction::Vertical);
}

#[test]
fn split_panel_puts_the_new_panel_on_the_side() {
    let mut root = DockNode::Panel(panel(1, vec![10]));
    assert!(root.split_panel(&1, Side::Left, &panel(2, vec![20])));
    match &root {
        DockNode::Split { direction, children } => {
            assert_eq!(*direction, Direction::Horizontal);
            assert_eq!(children.len(), 2);
            assert_eq!(children[0].first_panel().unwrap().panel_id, 2);
            assert_eq!(children[1].first_panel().unwrap().panel_id, 1);
        }
        _ => panic!("expected a split"),
    }
    assert!(root.split_panel(&1, Side::Bottom, &panel(3, vec![30])));
    assert_eq!(root.find_tab(&30), Some((3, 0)));
    assert!(!root.split_panel(&9, Side::Top, &panel(4, vec![])));
}

#[test]
fn find_tab_and_panel_lookup() {
    let root = DockNode::Split {
        direction: Direction::Vertical,
        children: vec![
            DockNode::Panel(panel(1, vec![10, 11])),
            DockNode::Panel(panel(2, vec![20, 11])),
        ],
    };
    assert_eq!(root.find_tab(&11), Some((1, 1)));
    assert_eq!(root.find_tab(&20), Some((2, 0)));
    assert_eq!(root.find_tab(&99), None);
    assert_eq!(tabs_of(&root, 2), vec![20, 11]);
    assert!(root.panel(&3).is_none());
    assert_eq!(root.first_panel().unwrap().panel_id, 1);
    assert!(!root.is_empty());
}

#[test]
fn remove_tab_except_skips_the_excepted_panel() {
    let mut root = DockNode::Split {
        direction: Direction::Horizontal,
        children: vec![
            DockNode::Panel(panel(1, vec![10, 11])),
            DockNode::Panel(panel(2, vec![11])),
        ],
    };
    assert!(root.remove_tab_except(&11, Some(&1)));
    assert_eq!(tabs_of(&root, 1), vec![10, 11]);
    assert_eq!(tabs_of(&root, 2), Vec::<u32>::new());
    assert_eq!(root.panel(&2).unwrap().active_tab_id, None);
    assert!(root.remove_tab_except(&10, None));
    assert_eq!(tabs_of(&root, 1), vec![11]);
    assert_eq!(root.panel(&1).unwrap().active_tab_id, Some(11));
    assert!(!root.remove_tab_except(&10, None));
}

#[test]
fn remove_tab_except_removes_from_every_other_panel() {
    let mut root = DockNode::Split {
        direction: Direction::Horizontal,
        children: vec![
            DockNode::Panel(panel(1, vec![7, 8])),
            DockNode::Split {
                direction: Direction::Vertical,
                children: vec![DockNode::Panel(panel(2, vec![8, 9])), DockNode::Panel(panel(3, vec![8]))],
            },
        ],
    };
    assert!(root.remove_tab_except(&8, Some(&3)));
    assert_eq!(tabs_of(&root, 1), vec![7]);
    assert_eq!(tabs_of(&root, 2), vec![9]);
    assert_eq!(root.panel(&2).unwrap().active_tab_id, Some(9));
    assert_eq!(tabs_of(&root, 3), vec![8]);
}

#[test]
fn close_empty_panels_collapses_the_tree() {
    let mut root = DockNode::Split {
        direction: Direction::Horizontal,
        children: vec![
            DockNode::Panel(panel(1, vec![10])),
            DockNode::Split {
                direction: Direction::Vertical,
                children: vec![DockNode::Panel(panel(2, vec![])), DockNode::Panel(panel(3, vec![]))],
            },
        ],
    };
    root.close_empty_panels();
    match &root {
        DockNode::Panel(p) => assert_eq!(p.panel_id, 1),
        _ => panic!("expected the single remaining panel"),
    }
    let mut empty = DockNode::Split {
        direction: Direction::Vertical,
        children: vec![DockNode::Panel(panel(2, vec![]))],
    };
    empty.close_empty_panels();
    assert!(empty.is_empty());
}

#[test]
fn panel_mut_changes_the_panel_in_place() {
    let mut root = DockNode::Split {
        direction: Direction::Horizontal,
        children: vec![DockNode::Panel(panel(1, vec![10])), DockNode::Panel(panel(2, vec![20]))],
    };
    root.panel_mut(&2).unwrap().append_tab(21);
    assert_eq!(tabs_of(&root, 2), vec![20, 21]);
    root.first_panel_mut().unwrap().insert_tab(12, 0);
    assert_eq!(tabs_of(&root, 1), vec![12, 10]);
    assert!(root.panel_mut(&7).is_none());
}

#[test]
fn content_context_and_drag() {
    let p = panel(4, vec![40, 41]);
    assert_eq!(p.content_context(), ContentContext { panel_id: 4, tab_id: Some(40), tab_count: 2 });
    assert_eq!(DockDrag::new(5u32).value, 5);
    let copy = p.clone();
    assert_eq!(copy.tabs, vec![40, 41]);
}

#[test]
fn hover_follows_enter_and_leave() {
    let mut hover: Option<HoverTarget<u32>> = None;
    toggle_hover(&mut hover, HoverTarget::Tab(3), true);
    assert_eq!(hover, Some(HoverTarget::Tab(3)));
    toggle_hover(&mut hover, HoverTarget::Center, false);
    assert_eq!(hover, Some(HoverTarget::Tab(3)));
    toggle_hover(&mut hover, HoverTarget::Edge(Side::Left), true);
    assert_eq!(hover, Some(HoverTarget::Edge(Side::Left)));
    toggle_hover(&mut hover, HoverTarget::Edge(Side::Left), false);
    assert_eq!(hover, None);
}

#[test]
fn tab_headers_mark_the_hovered_tab() {
    let tabs = vec![1u32, 2, 3];
    assert_eq!(
        tab_contexts(&tabs, Some(HoverTarget::Tab(2))),
        vec![
            TabContext { tab_id: 1, is_drop_target: false },
            TabContext { tab_id: 2, is_drop_target: true },
            TabContext { tab_id: 3, is_drop_target: false },
        ]
    );
    assert!(tab_contexts(&tabs, Some(HoverTarget::Center)).iter().all(|c| !c.is_drop_target));
    assert!(tab_contexts(&tabs, None).iter().all(|c| !c.is_drop_target));
}

#[test]
fn previews_cover_the_hovered_half() {
    assert_eq!(preview_area::<u32>(Some(HoverTarget::Edge(Side::Top)), true), Some(PreviewArea::Half(Side::Top)));
    assert_eq!(preview_area::<u32>(Some(HoverTarget::Center), true), Some(PreviewArea::Whole));
    assert_eq!(preview_area::<u32>(Some(HoverTarget::Center), false), None);
    assert_eq!(preview_area(Some(HoverTarget::Tab(1u32)), true), None);
    assert_eq!(preview_area::<u32>(None, true), None);
}
