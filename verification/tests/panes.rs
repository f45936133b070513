use blue_ide::panes::{CloseResult, FocusState, PaneIds, PaneTree};

fn path(name: &str) -> String {
    name.to_owned()
}

#[test]
fn split_mirrors_active_file_without_cloning_buffers() {
    let mut pane_ids = PaneIds::new();
    let mut tree = PaneTree::single(&mut pane_ids);
    let root = tree.all_leaf_ids()[0];
    tree.open_in_pane(root, path("main.rs"));

    assert!(tree.split_h(root, &mut pane_ids));
    let ids = tree.all_leaf_ids();
    assert_eq!(ids.len(), 2);
    assert_eq!(tree.active_in_pane(ids[0]), Some(&path("main.rs")));
    assert_eq!(tree.active_in_pane(ids[1]), Some(&path("main.rs")));
}

#[test]
fn close_pane_collapses_to_sibling_but_single_root_can_be_preserved_by_caller() {
    let mut pane_ids = PaneIds::new();
    let mut tree = PaneTree::single(&mut pane_ids);
    let root = tree.all_leaf_ids()[0];
    assert!(tree.split_v(root, &mut pane_ids));
    let ids = tree.all_leaf_ids();

    let CloseResult::Replace(replacement) = tree.close_pane(ids[1]) else {
        panic!("closing a split child should replace the split with its sibling");
    };
    tree = *replacement;

    assert_eq!(tree.all_leaf_ids(), vec![ids[0]]);
    assert!(matches!(tree.close_pane(ids[0]), CloseResult::RemoveSelf));
}

#[test]
fn tab_lists_are_independent_and_any_pane_has_tracks_references() {
    let mut pane_ids = PaneIds::new();
    let mut tree = PaneTree::single(&mut pane_ids);
    let root = tree.all_leaf_ids()[0];
    let first = path("first.rs");
    let second = path("second.rs");
    tree.open_in_pane(root, first.clone());
    tree.split_h(root, &mut pane_ids);
    let ids = tree.all_leaf_ids();

    tree.open_in_pane(ids[1], second.clone());
    tree.close_tab_in_pane(ids[0], &first);

    assert!(tree.any_pane_has(&first));
    assert!(tree.any_pane_has(&second));
    tree.close_tab_in_pane(ids[1], &first);
    assert!(!tree.any_pane_has(&first));
}

#[test]
fn focus_cycles_in_leaf_order() {
    let mut pane_ids = PaneIds::new();
    let mut tree = PaneTree::single(&mut pane_ids);
    let root = tree.all_leaf_ids()[0];
    tree.split_h(root, &mut pane_ids);
    let ids = tree.all_leaf_ids();
    let mut focus = FocusState::new(ids[0]);

    focus.cycle_next(&tree);
    assert_eq!(focus.active_pane, ids[1]);
    focus.cycle_next(&tree);
    assert_eq!(focus.active_pane, ids[0]);
    focus.cycle_prev(&tree);
    assert_eq!(focus.active_pane, ids[1]);
}

#[test]
fn split_gives_fresh_ids_and_unknown_panes_are_left_alone() {
    let mut pane_ids = PaneIds::new();
    let mut tree = PaneTree::single(&mut pane_ids);
    let root = tree.all_leaf_ids()[0];
    assert!(tree.split_v(root, &mut pane_ids));
    let ids = tree.all_leaf_ids();
    assert_ne!(ids[0], ids[1]);
    assert_eq!(ids[0], root);

    let missing = blue_ide::panes::PaneId(999);
    assert!(!tree.split_h(missing, &mut pane_ids));
    assert_eq!(tree.all_leaf_ids(), ids);
    assert!(matches!(tree.close_pane(missing), CloseResult::Unchanged));
    assert!(tree.find_leaf(missing).is_none());
    assert!(tree.find_leaf(root).is_some());
}

#[test]
fn closing_the_active_tab_activates_the_last_remaining_one() {
    let mut pane_ids = PaneIds::new();
    let mut tree = PaneTree::single(&mut pane_ids);
    let root = tree.all_leaf_ids()[0];
    tree.open_in_pane(root, path("a.rs"));
    tree.open_in_pane(root, path("b.rs"));
    tree.open_in_pane(root, path("c.rs"));
    tree.open_in_pane(root, path("b.rs"));
    assert_eq!(tree.active_in_pane(root), Some(&path("b.rs")));
    tree.close_tab_in_pane(root, "b.rs");
    assert_eq!(tree.active_in_pane(root), Some(&path("c.rs")));
    tree.remove_tab_from_all_panes("c.rs");
    assert_eq!(tree.active_in_pane(root), Some(&path("a.rs")));
    tree.remove_tab_from_all_panes("a.rs");
    assert_eq!(tree.active_in_pane(root), None);
    assert!(!tree.any_pane_has("a.rs"));
}

#[test]
fn nested_close_replaces_the_split_in_place() {
    let mut pane_ids = PaneIds::new();
    let mut tree = PaneTree::single(&mut pane_ids);
    let root = tree.all_leaf_ids()[0];
    tree.split_h(root, &mut pane_ids);
    let right = tree.all_leaf_ids()[1];
    tree.split_v(right, &mut pane_ids);
    let ids = tree.all_leaf_ids();
    assert_eq!(ids.len(), 3);
    assert!(matches!(tree.close_pane(ids[2]), CloseResult::Unchanged));
    assert_eq!(tree.all_leaf_ids(), vec![ids[0], ids[1]]);
}
