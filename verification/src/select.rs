//! The cyclic selector: find the focused window in the navigable list and
//! step one place forward or backward, wrapping around the ends.

use vstd::prelude::*;
use vstd::arithmetic::div_mod::{lemma_small_mod, lemma_mod_self_0, lemma_mod_multiples_vanish};
use crate::tree::{Node, NodeView, views_of};

verus! {

/// Which neighbour of the focused window to select.
#[derive(Debug, Clone, Copy, PartialEq, Eq, Structural)]
pub enum Direction {
    Next,
    Prev,
}

/// The focused index stepped one place in the given direction, wrapping
/// around the ends of a list of length `n`.
pub open spec fn spec_wrap_index(dir: Direction, i: int, n: int) -> int {
    match dir {
        Direction::Next => if i + 1 < n {
            i + 1
        } else {
            0
        },
        Direction::Prev => if i > 0 {
            i - 1
        } else {
            n - 1
        },
    }
}

/// Cyclic wraparound law: stepping forward is addition modulo the list
/// length and stepping backward is subtraction modulo the list length, for
/// every in-range index, including both ends and a list of one window.
pub proof fn lemma_cyclic_wraparound(i: int, n: int)
    requires
        0 <= i < n,
    ensures
        spec_wrap_index(Direction::Next, i, n) == (i + 1) % n,
        spec_wrap_index(Direction::Prev, i, n) == (i - 1 + n) % n,
{
    if i + 1 < n {
        lemma_small_mod((i + 1) as nat, n as nat);
    } else {
        lemma_mod_self_0(n);
    }
    if i > 0 {
        lemma_mod_multiples_vanish(1, i - 1, n);
        lemma_small_mod((i - 1) as nat, n as nat);
    } else {
        lemma_small_mod((n - 1) as nat, n as nat);
    }
}

/// Round-trip law: stepping forward then backward, or backward then forward,
/// returns to the starting index, for every list length of at least one.
pub proof fn lemma_round_trip(i: int, n: int)
    requires
        0 <= i < n,
    ensures
        spec_wrap_index(Direction::Prev, spec_wrap_index(Direction::Next, i, n), n) == i,
        spec_wrap_index(Direction::Next, spec_wrap_index(Direction::Prev, i, n), n) == i,
{
}

/// Step the focused index one place in the given direction, wrapping
/// cyclically.
pub fn wrap_index(dir: Direction, i: usize, n: usize) -> (t: usize)
    requires
        n > 0,
        i < n,
    ensures
        t == spec_wrap_index(dir, i as int, n as int),
        t < n,
{
    match dir {
        Direction::Next => {
            if i + 1 < n {
                i + 1
            } else {
                0
            }
        },
        Direction::Prev => {
            if i > 0 {
                i - 1
            } else {
                n - 1
            }
        },
    }
}

/// The index of the first entry whose focused flag is set.
pub open spec fn spec_first_focused(s: Seq<NodeView>) -> Option<int>
    decreases s.len(),
{
    if s.len() == 0 {
        None
    } else if s[0].focused {
        Some(0int)
    } else {
        match spec_first_focused(s.drop_first()) {
            Some(k) => Some(k + 1),
            None => None,
        }
    }
}

proof fn lemma_first_focused_at(s: Seq<NodeView>, j: int)
    requires
        0 <= j <= s.len(),
        forall|k: int| 0 <= k < j ==> !(#[trigger] s[k]).focused,
        j == s.len() || s[j].focused,
    ensures
        spec_first_focused(s) == if j == s.len() {
            None
        } else {
            Some(j)
        },
    decreases j,
{
    if s.len() > 0 {
        if j > 0 {
            let t = s.drop_first();
            assert forall|k: int| 0 <= k < j - 1 implies !(#[trigger] t[k]).focused by {
                assert(t[k] == s[k + 1]);
            }
            lemma_first_focused_at(t, j - 1);
        }
    }
}

/// Find the focused window: the position of the first entry of the window
/// list whose focused flag is set, if any is.
pub fn first_focused(windows: &Vec<Node>) -> (r: Option<usize>)
    ensures
        spec_first_focused(views_of(windows@)) == match r {
            Some(i) => Some(i as int),
            None => None,
        },
        r matches Some(i) ==> i < windows@.len(),
{
    let ghost s = views_of(windows@);
    let mut j: usize = 0;
    while j < windows.len()
        invariant
            j <= windows.len(),
            s == views_of(windows@),
            forall|k: int| 0 <= k < j ==> !(#[trigger] s[k]).focused,
        decreases windows@.len() - j,
    {
        if windows[j].focused {
            proof {
                assert(s[j as int] == windows@[j as int]@);
                lemma_first_focused_at(s, j as int);
            }
            return Some(j);
        }
        proof {
            assert(s[j as int] == windows@[j as int]@);
        }
        j = j + 1;
    }
    proof {
        lemma_first_focused_at(s, j as int);
    }
    None
}

} // verus!
