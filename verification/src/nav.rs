//! The navigator: locate the active workspace, reduce it, flatten it into
//! the navigable window list, pick the target window, and name the command
//! to send.

use vstd::prelude::*;
use crate::tree::{
    RawNode, RawView, NodeKind, Node, from_raw, reduce, views_of, lemma_raw_view_children,
};
use crate::collect::{collect_leaves, spec_windows};
use crate::select::{Direction, spec_wrap_index, spec_first_focused, wrap_index, first_focused};
use crate::command::{Action, NavigationCommand};

verus! {

/// Why a navigation run fails before any command is sent.
#[derive(Debug, Clone, Copy, PartialEq, Eq, Structural)]
pub enum NavError {
    /// A node on the way down to the workspace reports no focused child.
    NoFocusedPath,
    /// The focused child id a node reports is not among its children.
    FocusedChildMissing,
    /// No window in the navigable list carries the focused flag.
    NoFocusedWindow,
    /// The active workspace holds no windows.
    NoWindowsFound,
}

/// The index of the first child with the given id, or -1 when no child has
/// it.
pub open spec fn find_child(s: Seq<RawView>, fid: i64, j: int) -> int
    decreases s.len() - j,
{
    if j < 0 || j >= s.len() {
        -1
    } else if s[j].id == fid {
        j
    } else {
        find_child(s, fid, j + 1)
    }
}

proof fn lemma_find_child(s: Seq<RawView>, fid: i64, j: int)
    requires
        0 <= j <= s.len(),
    ensures
        ({
            let k = find_child(s, fid, j);
            ||| (k == -1 && forall|m: int| j <= m < s.len() ==> (#[trigger] s[m]).id != fid)
            ||| (j <= k < s.len() && s[k].id == fid && forall|m: int|
                j <= m < k ==> (#[trigger] s[m]).id != fid)
        }),
    decreases s.len() - j,
{
    if j < s.len() && s[j].id != fid {
        lemma_find_child(s, fid, j + 1);
    }
}

/// Where the focused chain from `r` leads: the first node of workspace kind
/// reached by following each node's first focus entry into its tiled
/// children, or the error met on the way.
pub open spec fn locate_spec(r: RawView) -> Result<RawView, NavError>
    decreases r,
    via locate_spec_dec
{
    if r.kind == NodeKind::Workspace {
        Ok(r)
    } else if r.focus.len() == 0 {
        Err(NavError::NoFocusedPath)
    } else {
        let k = find_child(r.nodes, r.focus[0], 0);
        if k < 0 {
            Err(NavError::FocusedChildMissing)
        } else {
            locate_spec(r.nodes[k])
        }
    }
}

#[via_fn]
proof fn locate_spec_dec(r: RawView) {
    if r.kind != NodeKind::Workspace && r.focus.len() > 0 {
        lemma_find_child(r.nodes, r.focus[0], 0);
    }
}

/// Walk from the snapshot root down the focused chain to the active
/// workspace, whose subtree bounds the navigation domain.
#[verifier::loop_isolation(false)]
pub fn find_focused_workspace(root: RawNode) -> (res: Result<RawNode, NavError>)
    ensures
        match res {
            Ok(ws) => locate_spec(root@) == Ok::<RawView, NavError>(ws@),
            Err(e) => locate_spec(root@) == Err::<RawView, NavError>(e),
        },
{
    let mut node = root;
    loop
        invariant
            locate_spec(root@) == locate_spec(node@),
        decreases node@,
    {
        if node.kind == NodeKind::Workspace {
            return Ok(node);
        }
        if node.focus.len() == 0 {
            return Err(NavError::NoFocusedPath);
        }
        let fid = node.focus[0];
        proof {
            lemma_raw_view_children(node);
        }
        let ghost nv = node@;
        let n = node.nodes.len();
        let mut k: usize = 0;
        let mut found = false;
        while !found && k < n
            invariant
                k <= n,
                forall|m: int| 0 <= m < k ==> (#[trigger] nv.nodes[m]).id != fid,
                found ==> k < n && nv.nodes[k as int].id == fid,
            decreases n - k + (if found {
                0int
            } else {
                1int
            }),
        {
            proof {
                assert(node.nodes@[k as int]@ == nv.nodes[k as int]);
            }
            if node.nodes[k].id == fid {
                found = true;
            } else {
                k = k + 1;
            }
        }
        proof {
            lemma_find_child(nv.nodes, fid, 0);
        }
        if !found {
            return Err(NavError::FocusedChildMissing);
        }
        let child = node.nodes.remove(k);
        proof {
            assert(child@ == nv.nodes[k as int]);
            assert(find_child(nv.nodes, fid, 0) == k as int);
            assert(locate_spec(nv) == locate_spec(child@));
            assert(decreases_to!(nv => nv.nodes));
            assert(decreases_to!(nv.nodes => nv.nodes[k as int]));
        }
        node = child;
    }
}

/// What a navigation run decides for a given snapshot, action and
/// direction: the exact command to send, or the exact error it stops with.
pub open spec fn plan_spec(root: RawView, action: Action, dir: Direction) -> Result<
    NavigationCommand,
    NavError,
> {
    match locate_spec(root) {
        Err(e) => Err(e),
        Ok(wsr) => {
            let windows = spec_windows(reduce(wsr));
            if windows.len() == 0 {
                Err(NavError::NoWindowsFound)
            } else {
                match spec_first_focused(windows) {
                    None => Err(NavError::NoFocusedWindow),
                    Some(i) => {
                        let t = windows[spec_wrap_index(dir, i, windows.len() as int)].id;
                        Ok(
                            match action {
                                Action::Focus => NavigationCommand::Focus(t),
                                Action::Move => NavigationCommand::Swap(t),
                            },
                        )
                    },
                }
            }
        },
    }
}

/// One full navigation decision: find the active workspace, reduce it,
/// collect the navigable window list, locate the focused window, step one
/// place in the given direction with wraparound, and name the command to
/// send. No command is named when the tree has no focused path, the
/// focused chain dangles, the workspace is empty, or no window is focused.
pub fn plan_navigation(root: RawNode, action: Action, dir: Direction) -> (res: Result<
    NavigationCommand,
    NavError,
>)
    ensures
        res == plan_spec(root@, action, dir),
{
    let ws_raw = match find_focused_workspace(root) {
        Ok(w) => w,
        Err(e) => {
            return Err(e);
        },
    };
    let ws = from_raw(ws_raw);
    let windows = collect_leaves(ws);
    if windows.len() == 0 {
        return Err(NavError::NoWindowsFound);
    }
    let focused = match first_focused(&windows) {
        Some(i) => i,
        None => {
            return Err(NavError::NoFocusedWindow);
        },
    };
    let target = wrap_index(dir, focused, windows.len());
    let id = windows[target].id;
    proof {
        assert(views_of(windows@)[target as int] == windows@[target as int]@);
    }
    match action {
        Action::Focus => Ok(NavigationCommand::Focus(id)),
        Action::Move => Ok(NavigationCommand::Swap(id)),
    }
}

} // verus!
