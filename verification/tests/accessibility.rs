use std::collections::HashMap;

use accesskit::{Node, Role};
use gpui::accessibility::{diff_tree_update, full_tree, A11Y_ROOT_ID};

#[test]
fn first_emission_includes_full_tree() {
    let mut button = Node::new(Role::Button);
    button.set_label("Hi");
    let collected = vec![(42u64, button)];
    let current = full_tree(collected);

    let update = diff_tree_update(&current, &HashMap::new(), true, None);
    assert!(
        update.tree.is_some(),
        "first emission must declare tree (TreeUpdate::tree required by AccessKit on init)"
    );
    assert_eq!(update.tree.as_ref().unwrap().root, A11Y_ROOT_ID);
    // Synthetic root + the one pushed child.
    assert_eq!(update.nodes.len(), 2);
    // Focus is the first non-root collected node (the button).
    assert_eq!(update.focus, 42u64);
}

#[test]
fn subsequent_emission_skips_tree_field() {
    let current = full_tree(vec![]);
    let update = diff_tree_update(&current, &current, false, None);
    assert!(update.tree.is_none());
}

#[test]
fn unchanged_emission_is_empty_diff() {
    let mut button = Node::new(Role::Button);
    button.set_label("Hi");
    let collected = vec![(42u64, button)];
    let current = full_tree(collected);
    let update = diff_tree_update(&current, &current, false, None);
    assert!(
        update.nodes.is_empty(),
        "diff against an identical previous tree must be empty"
    );
}

#[test]
fn changed_node_only_in_diff() {
    let id = 42u64;
    let mut button_v1 = Node::new(Role::Button);
    button_v1.set_label("Hi");
    let mut button_v2 = Node::new(Role::Button);
    button_v2.set_label("Bye"); // label changed
    let last = full_tree(vec![(id, button_v1)]);
    let current = full_tree(vec![(id, button_v2)]);

    let update = diff_tree_update(&current, &last, false, None);
    // Root's children list is the same (just [42]) -> root unchanged.
    // Only the button (id=42) differs by label.
    assert_eq!(update.nodes.len(), 1);
    assert_eq!(update.nodes[0].0, id);
    assert_eq!(update.nodes[0].1.label(), Some("Bye"));
}

#[test]
fn focus_uses_provided_node_id_when_present_in_tree() {
    let id_a = 42u64;
    let id_b = 43u64;
    let current = full_tree(vec![
        (id_a, Node::new(Role::Button)),
        (id_b, Node::new(Role::Button)),
    ]);
    let with_a = diff_tree_update(&current, &current, false, Some(id_a));
    let with_b = diff_tree_update(&current, &current, false, Some(id_b));
    assert_eq!(with_a.focus, id_a);
    assert_eq!(with_b.focus, id_b);
}

#[test]
fn focus_falls_back_when_provided_node_not_in_tree() {
    let id_a = 42u64;
    let stale = 99u64;
    let current = full_tree(vec![(id_a, Node::new(Role::Button))]);
    let update = diff_tree_update(&current, &current, false, Some(stale));
    // Stale focus id isn't in the tree -> fall back to the first non-root
    // node (id_a).
    assert_eq!(update.focus, id_a);
}

#[test]
fn full_tree_root_is_window_over_collected_ids() {
    let tree = full_tree(vec![
        (7u64, Node::new(Role::Button)),
        (3u64, Node::new(Role::Label)),
    ]);
    assert_eq!(tree.len(), 3);
    let root = &tree[&A11Y_ROOT_ID];
    assert_eq!(root.role(), Role::Window);
    let children: Vec<u64> = root.children().iter().map(|c| c.0).collect();
    assert_eq!(children, vec![7u64, 3u64]);
    assert_eq!(tree[&7u64].role(), Role::Button);
    assert_eq!(tree[&3u64].role(), Role::Label);
}

#[test]
fn full_tree_later_duplicate_wins() {
    let mut first = Node::new(Role::Button);
    first.set_label("first");
    let mut second = Node::new(Role::Button);
    second.set_label("second");
    let tree = full_tree(vec![(5u64, first), (5u64, second)]);
    assert_eq!(tree.len(), 2);
    assert_eq!(tree[&5u64].label(), Some("second"));
}

#[test]
fn full_tree_collected_root_id_replaces_root() {
    let tree = full_tree(vec![(A11Y_ROOT_ID, Node::new(Role::Button))]);
    assert_eq!(tree.len(), 1);
    assert_eq!(tree[&A11Y_ROOT_ID].role(), Role::Button);
}

#[test]
fn declared_update_lists_every_node_once() {
    let current = full_tree(vec![
        (1u64, Node::new(Role::Button)),
        (2u64, Node::new(Role::Button)),
    ]);
    let update = diff_tree_update(&current, &current, true, None);
    let mut ids: Vec<u64> = update.nodes.iter().map(|(id, _)| *id).collect();
    ids.sort();
    assert_eq!(ids, vec![0u64, 1u64, 2u64]);
    assert_eq!(update.tree.unwrap().root, A11Y_ROOT_ID);
}

#[test]
fn removed_node_is_dropped_through_root() {
    let last = full_tree(vec![
        (1u64, Node::new(Role::Button)),
        (2u64, Node::new(Role::Button)),
    ]);
    let current = full_tree(vec![(1u64, Node::new(Role::Button))]);
    let update = diff_tree_update(&current, &last, false, None);
    let ids: Vec<u64> = update.nodes.iter().map(|(id, _)| *id).collect();
    assert_eq!(ids, vec![A11Y_ROOT_ID]);
    let root = &update.nodes[0].1;
    let children: Vec<u64> = root.children().iter().map(|c| c.0).collect();
    assert_eq!(children, vec![1u64]);
}

#[test]
fn added_node_and_root_in_diff() {
    let last = full_tree(vec![(1u64, Node::new(Role::Button))]);
    let current = full_tree(vec![
        (1u64, Node::new(Role::Button)),
        (2u64, Node::new(Role::Label)),
    ]);
    let update = diff_tree_update(&current, &last, false, None);
    let mut ids: Vec<u64> = update.nodes.iter().map(|(id, _)| *id).collect();
    ids.sort();
    assert_eq!(ids, vec![A11Y_ROOT_ID, 2u64]);
}

#[test]
fn focus_is_root_when_tree_has_only_root() {
    let current = full_tree(vec![]);
    let update = diff_tree_update(&current, &current, false, Some(5));
    assert_eq!(update.focus, A11Y_ROOT_ID);
    assert!(update.nodes.is_empty());
}

#[test]
fn focus_fallback_is_first_collected_node() {
    let current = full_tree(vec![
        (10u64, Node::new(Role::Button)),
        (11u64, Node::new(Role::Button)),
        (12u64, Node::new(Role::Button)),
    ]);
    let update = diff_tree_update(&current, &current, false, None);
    assert_eq!(update.focus, 10u64);
}

#[test]
fn nan_node_is_never_unchanged() {
    let mut slider = Node::new(Role::Slider);
    slider.set_numeric_value(f64::NAN);
    let current = full_tree(vec![(4u64, slider)]);
    let update = diff_tree_update(&current, &current, false, None);
    let ids: Vec<u64> = update.nodes.iter().map(|(id, _)| *id).collect();
    assert_eq!(ids, vec![4u64]);
}

#[test]
fn empty_collection_gives_bare_window_root() {
    let tree = full_tree(vec![]);
    assert_eq!(tree.len(), 1);
    assert_eq!(tree[&A11Y_ROOT_ID].role(), Role::Window);
    assert!(tree[&A11Y_ROOT_ID].children().is_empty());
}

#[test]
fn frames_with_same_ids_share_their_root() {
    let a = full_tree(vec![(8u64, Node::new(Role::Button)), (9u64, Node::new(Role::Label))]);
    let b = full_tree(vec![(8u64, Node::new(Role::Label)), (9u64, Node::new(Role::Label))]);
    assert!(a[&A11Y_ROOT_ID] == b[&A11Y_ROOT_ID]);
    let update = diff_tree_update(&b, &a, false, None);
    let ids: Vec<u64> = update.nodes.iter().map(|(id, _)| *id).collect();
    assert_eq!(ids, vec![8u64]);
}

#[test]
fn fallback_focus_depends_only_on_the_tree() {
    let current = full_tree(vec![
        (20u64, Node::new(Role::Button)),
        (21u64, Node::new(Role::Button)),
        (22u64, Node::new(Role::Button)),
    ]);
    let other = full_tree(vec![(20u64, Node::new(Role::Label))]);
    let f1 = diff_tree_update(&current, &current, false, None).focus;
    let f2 = diff_tree_update(&current, &other, true, Some(99)).focus;
    let f3 = diff_tree_update(&current, &HashMap::new(), false, None).focus;
    assert_eq!(f1, f2);
    assert_eq!(f1, f3);
    // The fallback is the first collected node.
    assert_eq!(f1, 20u64);
}

#[test]
fn applying_update_over_last_reproduces_current() {
    let mut label = Node::new(Role::Label);
    label.set_label("old");
    let last = full_tree(vec![(1u64, label), (2u64, Node::new(Role::Button))]);
    let mut relabelled = Node::new(Role::Label);
    relabelled.set_label("new");
    let current = full_tree(vec![(1u64, relabelled), (3u64, Node::new(Role::Button))]);
    let update = diff_tree_update(&current, &last, false, None);
    let mut applied = last.clone();
    for (id, node) in update.nodes {
        applied.insert(id, node);
    }
    for (id, node) in current.iter() {
        assert!(applied[id] == *node);
    }
}

#[test]
fn update_applies_to_the_root_tree() {
    let current = full_tree(vec![(1u64, Node::new(Role::Button))]);
    let declared = diff_tree_update(&current, &HashMap::new(), true, None);
    let later = diff_tree_update(&current, &current, false, None);
    assert_eq!(declared.tree_id, gpui::accessibility::ROOT_TREE_ID);
    assert_eq!(later.tree_id, gpui::accessibility::ROOT_TREE_ID);
    assert_eq!(
        accesskit::TreeId::ROOT.0.as_u128(),
        gpui::accessibility::ROOT_TREE_ID
    );
}

#[test]
fn focus_falls_back_to_key_order_without_root_children() {
    let mut current = HashMap::new();
    current.insert(A11Y_ROOT_ID, Node::new(Role::Window));
    current.insert(6u64, Node::new(Role::Button));
    let update = diff_tree_update(&current, &current, false, None);
    assert_eq!(update.focus, 6u64);
}
