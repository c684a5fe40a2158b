use i3_autotile::rules::{decide, needs_snapshot, Command, RuleError, WindowChange};
use i3_autotile::tree::{Node, NodeLayout, NodeType, Rect};

const TAB_LEFT: &str = "focus left split v layout tabbed focus right move left";

fn node(id: usize, node_type: NodeType, layout: NodeLayout, nodes: Vec<Node>) -> Node {
    Node { id, node_type, layout, rect: Rect { x: 0, y: 0, width: 800, height: 600 }, nodes }
}

fn window(id: usize) -> Node {
    node(id, NodeType::Con, NodeLayout::SplitH, vec![])
}

fn in_workspace(layout: NodeLayout, children: Vec<Node>) -> Node {
    let ws = node(3, NodeType::Workspace, layout, children);
    let output = node(2, NodeType::Output, NodeLayout::Output, vec![ws]);
    node(1, NodeType::Root, NodeLayout::SplitH, vec![output])
}

fn three_windows() -> Node {
    in_workspace(NodeLayout::SplitH, vec![window(10), window(11), window(12)])
}

fn tab_with(child: usize) -> Node {
    node(20, NodeType::Con, NodeLayout::Tabbed, vec![window(child)])
}

#[test]
fn new_third_window_is_tabbed() {
    let t = three_windows();
    for x in [10, 11, 12] {
        let r = decide(WindowChange::New, x, &t);
        assert_eq!(r, Ok(Some(Command::TabLeftPair)));
        assert_eq!(r.unwrap().unwrap().text(), TAB_LEFT);
    }
}

#[test]
fn new_window_in_vertical_workspace_is_ignored() {
    let t = in_workspace(NodeLayout::SplitV, vec![window(10), window(11), window(12)]);
    assert_eq!(decide(WindowChange::New, 12, &t), Ok(None));
}

#[test]
fn new_window_with_two_siblings_in_a_container_is_ignored() {
    let con = node(4, NodeType::Con, NodeLayout::SplitH, vec![window(10), window(11), window(12)]);
    let t = in_workspace(NodeLayout::SplitH, vec![con]);
    assert_eq!(decide(WindowChange::New, 12, &t), Ok(None));
}

#[test]
fn new_window_among_four_is_ignored() {
    let t = in_workspace(
        NodeLayout::SplitH,
        vec![window(10), window(11), window(12), window(13)],
    );
    assert_eq!(decide(WindowChange::New, 13, &t), Ok(None));
}

#[test]
fn move_to_the_middle_is_tabbed() {
    let t = three_windows();
    assert_eq!(decide(WindowChange::Move, 11, &t), Ok(Some(Command::TabLeftPair)));
}

#[test]
fn move_to_an_edge_is_ignored() {
    let t = three_windows();
    assert_eq!(decide(WindowChange::Move, 10, &t), Ok(None));
    assert_eq!(decide(WindowChange::Move, 12, &t), Ok(None));
}

#[test]
fn move_beside_lone_tab_moves_it_right() {
    let t = in_workspace(NodeLayout::SplitH, vec![window(10), tab_with(42)]);
    let r = decide(WindowChange::Move, 10, &t);
    assert_eq!(r, Ok(Some(Command::MoveRight { con_id: 42 })));
    assert_eq!(r.unwrap().unwrap().text(), "[con_id=42] move right");
}

#[test]
fn move_beside_lone_tab_on_the_left_moves_it_right() {
    let t = in_workspace(NodeLayout::SplitH, vec![tab_with(94017), window(10)]);
    let r = decide(WindowChange::Move, 10, &t);
    assert_eq!(r, Ok(Some(Command::MoveRight { con_id: 94017 })));
    assert_eq!(r.unwrap().unwrap().text(), "[con_id=94017] move right");
}

#[test]
fn move_beside_fuller_tab_is_ignored() {
    let tab = node(20, NodeType::Con, NodeLayout::Tabbed, vec![window(42), window(43)]);
    let t = in_workspace(NodeLayout::SplitH, vec![window(10), tab]);
    assert_eq!(decide(WindowChange::Move, 10, &t), Ok(None));
}

#[test]
fn move_beside_stacked_group_is_ignored() {
    let stack = node(20, NodeType::Con, NodeLayout::Stacked, vec![window(42)]);
    let t = in_workspace(NodeLayout::SplitH, vec![window(10), stack]);
    assert_eq!(decide(WindowChange::Move, 10, &t), Ok(None));
}

#[test]
fn new_window_beside_lone_tab_is_ignored() {
    let t = in_workspace(NodeLayout::SplitH, vec![window(10), tab_with(42)]);
    assert_eq!(decide(WindowChange::New, 10, &t), Ok(None));
}

#[test]
fn other_changes_are_ignored() {
    let t = three_windows();
    assert_eq!(decide(WindowChange::Focus, 11, &t), Ok(None));
    assert_eq!(decide(WindowChange::Close, 11, &t), Ok(None));
    assert!(!needs_snapshot(WindowChange::Focus));
    assert!(!needs_snapshot(WindowChange::Title));
    assert!(needs_snapshot(WindowChange::New));
    assert!(needs_snapshot(WindowChange::Move));
}

#[test]
fn unknown_window_is_ignored() {
    let t = three_windows();
    assert_eq!(decide(WindowChange::New, 99, &t), Ok(None));
    assert_eq!(decide(WindowChange::Move, 1, &t), Ok(None));
}

#[test]
fn missing_sibling_is_an_error() {
    let t = in_workspace(NodeLayout::SplitH, vec![window(10), window(10)]);
    assert_eq!(
        decide(WindowChange::Move, 10, &t),
        Err(RuleError::MissingSibling { window_id: 10 })
    );
}

#[test]
fn command_text_digits() {
    assert_eq!(Command::MoveRight { con_id: 0 }.text(), "[con_id=0] move right");
    assert_eq!(Command::MoveRight { con_id: 7 }.text(), "[con_id=7] move right");
    assert_eq!(
        Command::MoveRight { con_id: usize::MAX }.text(),
        format!("[con_id={}] move right", usize::MAX)
    );
}
