use vstd::prelude::*;

use crate::tree::{
    find_parent, find_sibling, is_splith_workspace, lemma_node_at_push, lemma_parent_is_unique,
    lemma_two_children_are_siblings, parent_at, parent_spec, sibling_spec, splith_workspace_shape,
    unique_ids, Node, NodeLayout,
};

verus! {

/// What happened to a window, as the window manager reports it.
#[derive(Clone, Copy, Debug, PartialEq, Eq, Structural)]
pub enum WindowChange {
    New,
    Close,
    Focus,
    Title,
    FullscreenMode,
    Move,
    Floating,
    Urgent,
    Mark,
}

/// A layout command for the window manager.
#[derive(Clone, Copy, Debug, PartialEq, Eq, Structural)]
pub enum Command {
    /// Gather the window on the left and the focused one into a tabbed group
    /// in a vertical split, then move the focused window into it.
    TabLeftPair,
    /// Move the node with id `con_id` to the right.
    MoveRight { con_id: usize },
}

/// A snapshot that does not have the shape a matched rule relies on.
#[derive(Clone, Copy, Debug, PartialEq, Eq, Structural)]
pub enum RuleError {
    /// The parent of `window_id` has two children, and neither has another id.
    MissingSibling { window_id: usize },
}

/// The character of a decimal digit.
pub open spec fn digit_char(d: nat) -> char {
    if d < 10 {
        seq!['0', '1', '2', '3', '4', '5', '6', '7', '8', '9'][d as int]
    } else {
        '?'
    }
}

/// `n` written in decimal, with no sign and no leading zeros.
pub open spec fn decimal_digits(n: nat) -> Seq<char>
    decreases n,
{
    if n < 10 {
        seq![digit_char(n)]
    } else {
        decimal_digits(n / 10).push(digit_char(n % 10))
    }
}

/// The text of a command in the window manager's command language.
pub open spec fn command_text(c: Command) -> Seq<char> {
    match c {
        Command::TabLeftPair => "focus left split v layout tabbed focus right move left"@,
        Command::MoveRight { con_id } => "[con_id="@ + decimal_digits(con_id as nat)
            + "] move right"@,
    }
}

/// Relies on `ToString::to_string` for `usize`, which goes through its
/// `Display` impl: the number in decimal, without sign or leading zeros.
#[verifier::external_body]
fn decimal_text(n: usize) -> (r: String)
    ensures
        r@ == decimal_digits(n as nat),
{
    n.to_string()
}

impl Command {
    /// The text to send to the window manager.
    pub fn text(&self) -> (r: String)
        ensures
            r@ == command_text(*self),
    {
        match self {
            Command::TabLeftPair => String::from_str(
                "focus left split v layout tabbed focus right move left",
            ),
            Command::MoveRight { con_id } => {
                let mut s = String::from_str("[con_id=");
                let digits = decimal_text(*con_id);
                s.append(digits.as_str());
                s.append("] move right");
                s
            },
        }
    }
}

/// Whether the rules look at an event of this kind at all.
pub open spec fn change_is_watched(change: WindowChange) -> bool {
    change == WindowChange::New || change == WindowChange::Move
}

/// The rules, in order, for a window `x` whose parent in the snapshot is `p`.
pub open spec fn rule_for_parent(change: WindowChange, x: usize, tree: Node, p: Node) -> Result<
    Option<Command>,
    RuleError,
> {
    if splith_workspace_shape(p, 3) && (change == WindowChange::New || (change
        == WindowChange::Move && p.nodes[1].id == x)) {
        Ok(Some(Command::TabLeftPair))
    } else if change == WindowChange::Move && splith_workspace_shape(p, 2) {
        match sibling_spec(tree, x) {
            None => Err(RuleError::MissingSibling { window_id: x }),
            Some(s) => if s.layout == NodeLayout::Tabbed && s.nodes.len() == 1 {
                Ok(Some(Command::MoveRight { con_id: s.nodes[0].id }))
            } else {
                Ok(None)
            },
        }
    } else {
        Ok(None)
    }
}

/// The command, if any, that the rules give for a change to window `x` in
/// snapshot `tree`.
pub open spec fn decision_spec(change: WindowChange, x: usize, tree: Node) -> Result<
    Option<Command>,
    RuleError,
> {
    match parent_spec(tree, x) {
        None => Ok(None),
        Some(p) => rule_for_parent(change, x, tree, p),
    }
}

/// Whether an event of this kind calls for a snapshot and a decision.
pub fn needs_snapshot(change: WindowChange) -> (r: bool)
    ensures
        r == change_is_watched(change),
{
    change == WindowChange::New || change == WindowChange::Move
}

/// Applies the rules to a change of window `window_id`, given the snapshot
/// fetched after it.
pub fn decide(change: WindowChange, window_id: usize, tree: &Node) -> (r: Result<
    Option<Command>,
    RuleError,
>)
    ensures
        r == decision_spec(change, window_id, *tree),
{
    let parent = match find_parent(tree, window_id) {
        Some(p) => p,
        None => {
            return Ok(None);
        },
    };
    if is_splith_workspace(parent, 3) && (change == WindowChange::New || (change
        == WindowChange::Move && parent.nodes[1].id == window_id)) {
        return Ok(Some(Command::TabLeftPair));
    }
    if change == WindowChange::Move && is_splith_workspace(parent, 2) {
        match find_sibling(tree, window_id) {
            None => Err(RuleError::MissingSibling { window_id }),
            Some(sibling) => {
                if sibling.layout == NodeLayout::Tabbed && sibling.nodes.len() == 1 {
                    Ok(Some(Command::MoveRight { con_id: sibling.nodes[0].id }))
                } else {
                    Ok(None)
                }
            },
        }
    } else {
        Ok(None)
    }
}

/// In a snapshot with unique ids, a new window whose parent is a
/// horizontal-split workspace with three children gets the tabbing command,
/// and only that one.
pub proof fn lemma_new_third_window_is_tabbed(
    t: Node,
    path: Seq<int>,
    p: Node,
    i: int,
    x: usize,
)
    requires
        unique_ids(t),
        parent_at(t, path, p, i, x),
        splith_workspace_shape(p, 3),
    ensures
        decision_spec(WindowChange::New, x, t) == Ok::<Option<Command>, RuleError>(
            Some(Command::TabLeftPair),
        ),
        command_text(Command::TabLeftPair)
            == "focus left split v layout tabbed focus right move left"@,
{
    lemma_parent_is_unique(t, path, p, i, x);
}

/// In a snapshot with unique ids, a window moved to the first or the last
/// place of a horizontal-split workspace with three children gets no command.
pub proof fn lemma_move_to_edge_is_ignored(t: Node, path: Seq<int>, p: Node, i: int, x: usize)
    requires
        unique_ids(t),
        parent_at(t, path, p, i, x),
        splith_workspace_shape(p, 3),
        i == 0 || i == 2,
    ensures
        decision_spec(WindowChange::Move, x, t) == Ok::<Option<Command>, RuleError>(None),
{
    lemma_parent_is_unique(t, path, p, i, x);
    lemma_node_at_push(t, path, i);
    lemma_node_at_push(t, path, 1);
    assert(path.push(i)[path.len() as int] != path.push(1)[path.len() as int]);
    assert(p.nodes[1].id != x);
}

/// In a snapshot with unique ids, a window moved beside a tabbed group that
/// holds one node `k`, in a horizontal-split workspace with two children,
/// gets the command that moves `k` to the right.
pub proof fn lemma_lone_tab_moves_right(t: Node, path: Seq<int>, p: Node, i: int, x: usize)
    requires
        unique_ids(t),
        parent_at(t, path, p, i, x),
        splith_workspace_shape(p, 2),
        p.nodes[1 - i].layout == NodeLayout::Tabbed,
        p.nodes[1 - i].nodes.len() == 1,
    ensures
        decision_spec(WindowChange::Move, x, t) == Ok::<Option<Command>, RuleError>(
            Some(Command::MoveRight { con_id: p.nodes[1 - i].nodes[0].id }),
        ),
        command_text(Command::MoveRight { con_id: p.nodes[1 - i].nodes[0].id }) == "[con_id="@
            + decimal_digits(p.nodes[1 - i].nodes[0].id as nat) + "] move right"@,
{
    lemma_parent_is_unique(t, path, p, i, x);
    lemma_two_children_are_siblings(t, path, p);
}

} // verus!
