use i3_autotile::tree::{
    find_parent, find_sibling, has_splith_workspace_parent, is_splith_workspace, split_rect, Node, NodeLayout,
    NodeType, Rect,
};

fn rect(width: isize, height: isize) -> Rect {
    Rect { x: 0, y: 0, width, height }
}

fn node(id: usize, node_type: NodeType, layout: NodeLayout, nodes: Vec<Node>) -> Node {
    Node { id, node_type, layout, rect: rect(100, 50), nodes }
}

fn window(id: usize) -> Node {
    node(id, NodeType::Con, NodeLayout::SplitH, vec![])
}

// root(1) -> output(2) -> workspace(3, splith) -> [10, tabbed(11) -> [12, 13], 14]
fn sample() -> Node {
    let tabbed = node(11, NodeType::Con, NodeLayout::Tabbed, vec![window(12), window(13)]);
    let ws = node(3, NodeType::Workspace, NodeLayout::SplitH, vec![window(10), tabbed, window(14)]);
    let output = node(2, NodeType::Output, NodeLayout::Output, vec![ws]);
    node(1, NodeType::Root, NodeLayout::SplitH, vec![output])
}

#[test]
fn absent_id_has_no_parent_or_sibling() {
    let t = sample();
    assert!(find_parent(&t, 99).is_none());
    assert!(find_sibling(&t, 99).is_none());
}

#[test]
fn root_has_no_parent() {
    let t = sample();
    assert!(find_parent(&t, 1).is_none());
    assert!(find_sibling(&t, 1).is_none());
}

#[test]
fn parent_of_direct_child() {
    let t = sample();
    assert_eq!(find_parent(&t, 2).unwrap().id, 1);
    assert_eq!(find_parent(&t, 10).unwrap().id, 3);
    assert_eq!(find_parent(&t, 14).unwrap().id, 3);
}

#[test]
fn parent_found_below_earlier_branches() {
    let t = sample();
    assert_eq!(find_parent(&t, 13).unwrap().id, 11);
    assert_eq!(find_parent(&t, 11).unwrap().id, 3);
}

#[test]
fn two_children_are_each_others_sibling() {
    let ws = node(5, NodeType::Workspace, NodeLayout::SplitH, vec![window(6), window(7)]);
    let t = node(1, NodeType::Root, NodeLayout::SplitH, vec![ws]);
    assert_eq!(find_sibling(&t, 6).unwrap().id, 7);
    assert_eq!(find_sibling(&t, 7).unwrap().id, 6);
}

#[test]
fn sibling_among_three_is_first_other_child() {
    let t = sample();
    assert_eq!(find_sibling(&t, 10).unwrap().id, 11);
    assert_eq!(find_sibling(&t, 11).unwrap().id, 10);
    assert_eq!(find_sibling(&t, 14).unwrap().id, 10);
}

#[test]
fn only_child_has_no_sibling() {
    let t = sample();
    assert!(find_sibling(&t, 2).is_none());
}

#[test]
fn splith_workspace_parent_with_matching_child_count() {
    let t = sample();
    assert!(has_splith_workspace_parent(&t, 10, false, 3));
    assert!(has_splith_workspace_parent(&t, 11, false, 3));
}

#[test]
fn splith_workspace_parent_with_other_child_count() {
    let t = sample();
    assert!(!has_splith_workspace_parent(&t, 10, false, 2));
}

#[test]
fn splith_workspace_parent_not_for_grandchildren_or_absent() {
    let t = sample();
    assert!(!has_splith_workspace_parent(&t, 12, false, 3));
    assert!(!has_splith_workspace_parent(&t, 3, false, 3));
    assert!(!has_splith_workspace_parent(&t, 99, true, 3));
}

#[test]
fn splith_workspace_parent_of_root_is_the_seed() {
    let t = sample();
    assert!(has_splith_workspace_parent(&t, 1, true, 3));
    assert!(!has_splith_workspace_parent(&t, 1, false, 3));
}

#[test]
fn split_direction_follows_shape() {
    assert_eq!(split_rect(rect(1920, 1080)), "split h");
    assert_eq!(split_rect(rect(1080, 1920)), "split v");
    assert_eq!(split_rect(rect(500, 500)), "split v");
}

#[test]
fn workspace_shape_predicate() {
    let t = sample();
    let ws = &t.nodes[0].nodes[0];
    assert!(is_splith_workspace(ws, 3));
    assert!(!is_splith_workspace(ws, 2));
    assert!(!is_splith_workspace(&ws.nodes[1], 2));
    let vertical = node(8, NodeType::Workspace, NodeLayout::SplitV, vec![window(9)]);
    assert!(!is_splith_workspace(&vertical, 1));
    let con = node(8, NodeType::Con, NodeLayout::SplitH, vec![window(9)]);
    assert!(!is_splith_workspace(&con, 1));
}
