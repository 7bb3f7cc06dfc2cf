use core::cmp::Ordering;

use sway_window_nav::command::{decimal_i64, decimal_u64, Action, NavigationCommand};
use sway_window_nav::collect::collect_leaves;
use sway_window_nav::geometry::Coord;
use sway_window_nav::nav::{find_focused_workspace, plan_navigation, NavError};
use sway_window_nav::select::{first_focused, wrap_index, Direction};
use sway_window_nav::tree::{from_raw, Node, NodeKind, RawNode};

fn raw_leaf(id: i64, x: i32, y: i32, deco_x: i32, deco_y: i32, focused: bool) -> RawNode {
    RawNode {
        id,
        name: Some(format!("window {}", id)),
        kind: NodeKind::Con,
        focused,
        rect_x: x,
        rect_y: y,
        deco_x,
        deco_y,
        focus: vec![],
        nodes: vec![],
        floating_nodes: vec![],
    }
}

fn raw_branch(id: i64, x: i32, y: i32, deco_x: i32, deco_y: i32, children: Vec<RawNode>) -> RawNode {
    RawNode {
        id,
        name: None,
        kind: NodeKind::Con,
        focused: false,
        rect_x: x,
        rect_y: y,
        deco_x,
        deco_y,
        focus: vec![],
        nodes: children,
        floating_nodes: vec![],
    }
}

fn raw_workspace(id: i64, children: Vec<RawNode>) -> RawNode {
    RawNode {
        id,
        name: Some(String::from("1")),
        kind: NodeKind::Workspace,
        focused: false,
        rect_x: 0,
        rect_y: 0,
        deco_x: 0,
        deco_y: 0,
        focus: vec![],
        nodes: children,
        floating_nodes: vec![],
    }
}

fn raw_root(workspace: RawNode) -> RawNode {
    let ws_id = workspace.id;
    let output = RawNode {
        id: 900,
        name: Some(String::from("eDP-1")),
        kind: NodeKind::Output,
        focused: false,
        rect_x: 0,
        rect_y: 0,
        deco_x: 0,
        deco_y: 0,
        focus: vec![ws_id],
        nodes: vec![workspace],
        floating_nodes: vec![],
    };
    RawNode {
        id: 1,
        name: Some(String::from("root")),
        kind: NodeKind::Root,
        focused: false,
        rect_x: 0,
        rect_y: 0,
        deco_x: 0,
        deco_y: 0,
        focus: vec![900],
        nodes: vec![output],
        floating_nodes: vec![],
    }
}

fn window_ids(windows: &Vec<Node>) -> Vec<i64> {
    windows.iter().map(|w| w.id).collect()
}

fn three_window_workspace() -> RawNode {
    // Three leaves already left to right at x = 0, 100, 200, same y; the
    // middle one focused.
    raw_workspace(
        10,
        vec![
            raw_leaf(11, 0, 0, 0, 0, false),
            raw_leaf(12, 100, 0, 100, 0, true),
            raw_leaf(13, 200, 0, 200, 0, false),
        ],
    )
}

#[test]
fn linear_workspace_focus_next_selects_rightmost() {
    let root = raw_root(three_window_workspace());
    let cmd = plan_navigation(root, Action::Focus, Direction::Next).unwrap();
    assert_eq!(cmd, NavigationCommand::Focus(13));
}

#[test]
fn linear_workspace_focus_prev_selects_leftmost() {
    let root = raw_root(three_window_workspace());
    let cmd = plan_navigation(root, Action::Focus, Direction::Prev).unwrap();
    assert_eq!(cmd, NavigationCommand::Focus(11));
}

#[test]
fn linear_workspace_move_emits_swap() {
    let root = raw_root(three_window_workspace());
    let cmd = plan_navigation(root, Action::Move, Direction::Next).unwrap();
    assert_eq!(cmd, NavigationCommand::Swap(13));
}

#[test]
fn empty_workspace_reports_no_windows() {
    let root = raw_root(raw_workspace(10, vec![]));
    let res = plan_navigation(root, Action::Focus, Direction::Next);
    assert_eq!(res, Err(NavError::NoWindowsFound));
}

#[test]
fn unfocused_workspace_reports_no_focused_window() {
    let ws = raw_workspace(
        10,
        vec![raw_leaf(11, 0, 0, 0, 0, false), raw_leaf(12, 100, 0, 100, 0, false)],
    );
    let res = plan_navigation(raw_root(ws), Action::Focus, Direction::Next);
    assert_eq!(res, Err(NavError::NoFocusedWindow));
}

#[test]
fn missing_focus_list_reports_no_focused_path() {
    // The root names no focused child at all.
    let mut root = raw_root(raw_workspace(10, vec![]));
    root.focus = vec![];
    let res = plan_navigation(root, Action::Focus, Direction::Next);
    assert_eq!(res, Err(NavError::NoFocusedPath));
}

#[test]
fn dangling_focus_id_reports_focused_child_missing() {
    // The root points at a child id that does not exist.
    let mut root = raw_root(raw_workspace(10, vec![]));
    root.focus = vec![777];
    let res = plan_navigation(root, Action::Focus, Direction::Next);
    assert_eq!(res, Err(NavError::FocusedChildMissing));
}

#[test]
fn locator_returns_workspace_subtree() {
    let root = raw_root(three_window_workspace());
    let ws = find_focused_workspace(root).unwrap();
    assert_eq!(ws.id, 10);
    assert_eq!(ws.nodes.len(), 3);
}

#[test]
fn tabbed_tie_breaks_on_descending_decoration_x() {
    // Two sibling leaves share a content position; decoration x = 10 and 20.
    // The x = 20 leaf sorts first.
    let ws = raw_workspace(
        10,
        vec![raw_leaf(21, 0, 0, 10, 0, false), raw_leaf(22, 0, 0, 20, 0, true)],
    );
    let windows = collect_leaves(from_raw(ws));
    assert_eq!(window_ids(&windows), vec![22, 21]);
}

#[test]
fn sibling_above_precedes_regardless_of_decorations() {
    // One leaf strictly above-left of another is visited first even when the
    // decorations argue the other way.
    let ws = raw_workspace(
        10,
        vec![raw_leaf(31, 50, 50, 0, 0, false), raw_leaf(32, 0, 0, 999, 999, false)],
    );
    let windows = collect_leaves(from_raw(ws));
    assert_eq!(window_ids(&windows), vec![32, 31]);
}

#[test]
fn traversal_is_deterministic() {
    let build = || {
        raw_workspace(
            10,
            vec![
                raw_leaf(41, 100, 0, 0, 0, false),
                raw_leaf(42, 0, 100, 0, 0, false),
                raw_leaf(43, 0, 0, 0, 0, true),
                raw_leaf(44, 100, 100, 0, 0, false),
            ],
        )
    };
    let first = window_ids(&collect_leaves(from_raw(build())));
    let second = window_ids(&collect_leaves(from_raw(build())));
    assert_eq!(first, second);
    assert_eq!(first, vec![43, 41, 42, 44]);
}

#[test]
fn nested_branches_keep_local_reading_order() {
    // Two side-by-side split containers, each holding a column of two
    // windows: the whole left column precedes the whole right column.
    let left = raw_branch(
        50,
        0,
        0,
        0,
        0,
        vec![raw_leaf(51, 0, 300, 0, 300, false), raw_leaf(52, 0, 0, 0, 0, true)],
    );
    let right = raw_branch(
        60,
        500,
        0,
        500,
        0,
        vec![raw_leaf(61, 500, 0, 500, 0, false), raw_leaf(62, 500, 300, 500, 300, false)],
    );
    let ws = raw_workspace(10, vec![left, right]);
    let windows = collect_leaves(from_raw(ws));
    assert_eq!(window_ids(&windows), vec![52, 51, 61, 62]);
}

#[test]
fn floating_children_join_the_navigation_domain() {
    let mut ws = raw_workspace(10, vec![raw_leaf(71, 0, 0, 0, 0, true)]);
    ws.floating_nodes = vec![raw_leaf(72, 50, 50, 50, 50, false)];
    let root = raw_root(ws);
    let cmd = plan_navigation(root, Action::Focus, Direction::Next).unwrap();
    assert_eq!(cmd, NavigationCommand::Focus(72));
}

#[test]
fn branch_content_position_drops_decoration_offset() {
    // A branch reporting rect y = 50 with decoration y = 20 is placed at an
    // effective y of 30; a leaf keeps its raw position.
    let branch = raw_branch(80, 0, 50, 0, 20, vec![raw_leaf(81, 0, 50, 0, 20, false)]);
    let reduced = from_raw(branch);
    assert_eq!(reduced.coords, Coord { x: 0, y: 30 });
    assert_eq!(reduced.deco_coords, Coord { x: 0, y: 20 });
    assert_eq!(reduced.nodes[0].coords, Coord { x: 0, y: 50 });
}

#[test]
fn wraparound_covers_both_ends() {
    // Next from the last index wraps to 0; Prev from 0 wraps to the end.
    assert_eq!(wrap_index(Direction::Next, 0, 4), 1);
    assert_eq!(wrap_index(Direction::Next, 3, 4), 0);
    assert_eq!(wrap_index(Direction::Prev, 0, 4), 3);
    assert_eq!(wrap_index(Direction::Prev, 2, 4), 1);
    assert_eq!(wrap_index(Direction::Next, 0, 1), 0);
    assert_eq!(wrap_index(Direction::Prev, 0, 1), 0);
}

#[test]
fn wraparound_round_trips() {
    for n in 1..6usize {
        for i in 0..n {
            let forward = wrap_index(Direction::Next, i, n);
            assert_eq!(wrap_index(Direction::Prev, forward, n), i);
            let backward = wrap_index(Direction::Prev, i, n);
            assert_eq!(wrap_index(Direction::Next, backward, n), i);
        }
    }
}

#[test]
fn single_window_wraps_to_itself() {
    let ws = raw_workspace(10, vec![raw_leaf(91, 0, 0, 0, 0, true)]);
    let cmd = plan_navigation(raw_root(ws), Action::Focus, Direction::Next).unwrap();
    assert_eq!(cmd, NavigationCommand::Focus(91));
}

#[test]
fn focus_command_shape_for_id_42() {
    let s = NavigationCommand::Focus(42).command_string();
    assert_eq!(s, "[con_id=42] focus");
}

#[test]
fn swap_command_shape_for_id_42() {
    let s = NavigationCommand::Swap(42).command_string();
    assert_eq!(s, "swap container with con_id 42");
}

#[test]
fn decimal_rendering_of_plain_numbers() {
    assert_eq!(decimal_u64(0), "0");
    assert_eq!(decimal_u64(7), "7");
    assert_eq!(decimal_u64(10), "10");
    assert_eq!(decimal_u64(90210), "90210");
    assert_eq!(decimal_u64(u64::MAX), "18446744073709551615");
}

#[test]
fn decimal_rendering_of_signed_ids() {
    assert_eq!(decimal_i64(0), "0");
    assert_eq!(decimal_i64(-1), "-1");
    assert_eq!(decimal_i64(i64::MAX), "9223372036854775807");
    assert_eq!(decimal_i64(i64::MIN), "-9223372036854775808");
}

#[test]
fn first_focused_picks_the_first_match() {
    let windows = collect_leaves(from_raw(raw_workspace(
        10,
        vec![
            raw_leaf(95, 0, 0, 0, 0, false),
            raw_leaf(96, 100, 0, 0, 0, true),
            raw_leaf(97, 200, 0, 0, 0, true),
        ],
    )));
    assert_eq!(first_focused(&windows), Some(1));
}

#[test]
fn comparator_orders_coordinates() {
    let a = Coord { x: 0, y: 0 };
    let b = Coord { x: 100, y: 0 };
    let c = Coord { x: 0, y: 100 };
    // Higher on screen, or further left, compares Less.
    assert_eq!(a.asc_above_or_right_of(&b), Ordering::Less);
    assert_eq!(a.asc_above_or_right_of(&c), Ordering::Less);
    assert_eq!(a.asc_above_or_right_of(&a), Ordering::Equal);
    assert_eq!(b.asc_above_or_right_of(&a), Ordering::Greater);
    // The below-variant flips the vertical sense.
    assert_eq!(c.asc_below_or_right_of(&a), Ordering::Less);
    assert_eq!(a.asc_below_or_right_of(&c), Ordering::Greater);
}

#[test]
fn node_comparator_reverses_and_breaks_ties() {
    let above = from_raw(raw_leaf(1, 0, 0, 0, 0, false));
    let below = from_raw(raw_leaf(2, 0, 100, 0, 0, false));
    // The frame comparison is the reverse of the coordinate comparison, so
    // the node visited first compares Greater.
    assert_eq!(above.asc_above_or_right_of(&below), Ordering::Greater);
    assert_eq!(below.asc_above_or_right_of(&above), Ordering::Less);
    // Position ties fall to the decoration x offset: further right is
    // visited first, hence Greater in frame order.
    let tab_left = from_raw(raw_leaf(3, 0, 0, 10, 0, false));
    let tab_right = from_raw(raw_leaf(4, 0, 0, 20, 0, false));
    assert_eq!(tab_right.asc_above_or_right_of(&tab_left), Ordering::Greater);
    assert_eq!(tab_left.asc_above_or_right_of(&tab_right), Ordering::Less);
}

#[test]
fn deeply_nested_tree_collects_single_leaf() {
    // A long chain of single-child containers ends at one window.
    let mut node = raw_leaf(100, 0, 0, 0, 0, true);
    for depth in 0..64 {
        node = raw_branch(200 + depth, 0, 0, 0, 0, vec![node]);
    }
    let ws = raw_workspace(10, vec![node]);
    let cmd = plan_navigation(raw_root(ws), Action::Focus, Direction::Next).unwrap();
    assert_eq!(cmd, NavigationCommand::Focus(100));
}
