//! What a hotkey does: move the focus to the next or the previous game
//! window of the list, cyclically.
use vstd::prelude::*;
use crate::state::{DofusWindow, handles, handles_unique};

verus! {

/// The two things a hotkey can ask for.
#[derive(Clone, Copy, Debug, PartialEq, Eq, Structural)]
pub enum GameAction {
    NextWindow,
    PrevWindow,
}

/// The index of the first occurrence of `h` in `hs`, or -1 where there is none.
pub open spec fn first_index(hs: Seq<isize>, h: isize) -> int
    decreases hs.len(),
{
    if hs.len() == 0 {
        -1
    } else {
        let r = first_index(hs.drop_last(), h);
        if r >= 0 {
            r
        } else if hs.last() == h {
            hs.len() - 1
        } else {
            -1
        }
    }
}

/// The index the cycle starts from: that of the foreground window where it is
/// in the list, else the last one.
pub open spec fn current_index(hs: Seq<isize>, foreground: isize) -> int {
    let r = first_index(hs, foreground);
    if r >= 0 { r } else { hs.len() - 1 }
}

/// One step of the cycle over `count` windows.
pub open spec fn step_index(action: GameAction, idx: int, count: int) -> int {
    match action {
        GameAction::NextWindow => (idx + 1) % count,
        GameAction::PrevWindow => (idx + count - 1) % count,
    }
}

/// The window that an action brings to the foreground, if any.
pub open spec fn execute_target(action: GameAction, ws: Seq<DofusWindow>, foreground: isize) -> Option<isize> {
    let hs = handles(ws);
    if hs.len() == 0 {
        None
    } else {
        Some(hs[step_index(action, current_index(hs, foreground), hs.len() as int)])
    }
}

proof fn lemma_first_index_bounds(hs: Seq<isize>, h: isize)
    ensures
        -1 <= first_index(hs, h) < hs.len(),
        first_index(hs, h) >= 0 ==> hs[first_index(hs, h)] == h,
        first_index(hs, h) >= 0 ==> forall|j: int| 0 <= j < first_index(hs, h) ==> hs[j] != h,
        first_index(hs, h) < 0 ==> forall|j: int| 0 <= j < hs.len() ==> hs[j] != h,
    decreases hs.len(),
{
    if hs.len() > 0 {
        lemma_first_index_bounds(hs.drop_last(), h);
        assert forall|j: int| 0 <= j < hs.len() - 1 implies hs.drop_last()[j] == hs[j] by {}
    }
}

proof fn lemma_first_index_take_step(hs: Seq<isize>, h: isize, i: int)
    requires
        0 <= i < hs.len(),
        first_index(hs.take(i), h) == -1,
    ensures
        first_index(hs.take(i + 1), h) == (if hs[i] == h { i } else { -1 }),
{
    assert(hs.take(i + 1).drop_last() =~= hs.take(i));
}

proof fn lemma_first_index_char(hs: Seq<isize>, h: isize, r: int)
    requires
        0 <= r < hs.len(),
        hs[r] == h,
        forall|j: int| 0 <= j < r ==> hs[j] != h,
    ensures
        first_index(hs, h) == r,
{
    lemma_first_index_bounds(hs, h);
}

proof fn lemma_step_index_bounds(action: GameAction, idx: int, count: int)
    requires
        0 <= idx < count,
    ensures
        0 <= step_index(action, idx, count) < count,
        step_index(action, idx, count) == match action {
            GameAction::NextWindow => if idx + 1 == count { 0 } else { idx + 1 },
            GameAction::PrevWindow => if idx == 0 { count - 1 } else { idx - 1 },
        },
{
    if idx + 1 == count {
        vstd::arithmetic::div_mod::lemma_mod_self_0(count);
    } else {
        vstd::arithmetic::div_mod::lemma_small_mod((idx + 1) as nat, count as nat);
    }
    if idx == 0 {
        vstd::arithmetic::div_mod::lemma_small_mod((count - 1) as nat, count as nat);
    } else {
        vstd::arithmetic::div_mod::lemma_mod_add_multiples_vanish(idx - 1, count);
        vstd::arithmetic::div_mod::lemma_small_mod((idx - 1) as nat, count as nat);
    }
}

/// Decides which window a hotkey brings to the foreground: the one after
/// (or before) the foreground window in the list, wrapping around; when the
/// foreground window is not in the list, the cycle starts from the last one.
/// Returns `None` where the list is empty.
pub fn execute(action: GameAction, windows: &Vec<DofusWindow>, foreground: isize) -> (target: Option<isize>)
    ensures
        target == execute_target(action, windows@, foreground),
{
    let count = windows.len();
    if count == 0 {
        return None;
    }
    let ghost hs = handles(windows@);
    let mut idx: usize = count - 1;
    let mut i: usize = 0;
    while i < count
        invariant_except_break
            first_index(hs.take(i as int), foreground) == -1,
            i == count ==> first_index(hs, foreground) == -1,
            idx == count - 1,
        invariant
            count == windows.len(),
            count > 0,
            hs == handles(windows@),
            i <= count,
        ensures
            idx == current_index(hs, foreground),
            idx < count,
        decreases count - i,
    {
        proof {
            lemma_first_index_take_step(hs, foreground, i as int);
        }
        if windows[i].hwnd == foreground {
            proof {
                lemma_first_index_bounds(hs.take(i as int), foreground);
                assert forall|j: int| 0 <= j < i implies hs[j] != foreground by {
                    assert(hs.take(i as int)[j] == hs[j]);
                }
                lemma_first_index_char(hs, foreground, i as int);
            }
            idx = i;
            break;
        }
        i = i + 1;
        proof {
            if i == count {
                assert(hs.take(i as int) =~= hs);
            }
        }
    }
    proof {
        lemma_step_index_bounds(action, idx as int, count as int);
    }
    let next: usize = match action {
        GameAction::NextWindow => if idx + 1 == count { 0 } else { idx + 1 },
        GameAction::PrevWindow => if idx == 0 { count - 1 } else { idx - 1 },
    };
    Some(windows[next].hwnd)
}

/// Law: a hotkey always brings one of the listed windows to the
/// foreground, and does so whenever the list is not empty.
pub proof fn law_target_is_listed(action: GameAction, ws: Seq<DofusWindow>, foreground: isize)
    ensures
        execute_target(action, ws, foreground) is Some <==> ws.len() > 0,
        execute_target(action, ws, foreground) matches Some(h) ==> handles(ws).contains(h),
{
    let hs = handles(ws);
    if hs.len() > 0 {
        lemma_first_index_bounds(hs, foreground);
        let i = current_index(hs, foreground);
        lemma_step_index_bounds(action, i, hs.len() as int);
        let j = step_index(action, i, hs.len() as int);
        assert(hs.contains(hs[j]));
    }
}

/// Law: when no handle occurs twice and the foreground window is listed,
/// the previous-window hotkey undoes the next-window hotkey, and the
/// next-window hotkey undoes the previous-window hotkey.
pub proof fn law_prev_undoes_next(ws: Seq<DofusWindow>, foreground: isize)
    requires
        handles_unique(handles(ws)),
        handles(ws).contains(foreground),
    ensures
        execute_target(GameAction::PrevWindow, ws, execute_target(GameAction::NextWindow, ws, foreground)->0)
            == Some(foreground),
        execute_target(GameAction::NextWindow, ws, execute_target(GameAction::PrevWindow, ws, foreground)->0)
            == Some(foreground),
{
    let hs = handles(ws);
    let c = hs.len() as int;
    lemma_first_index_bounds(hs, foreground);
    let i = first_index(hs, foreground);
    assert(i >= 0);
    assert(current_index(hs, foreground) == i);
    lemma_step_index_bounds(GameAction::NextWindow, i, c);
    lemma_step_index_bounds(GameAction::PrevWindow, i, c);
    let n = step_index(GameAction::NextWindow, i, c);
    let p = step_index(GameAction::PrevWindow, i, c);
    lemma_first_index_char(hs, hs[n], n);
    lemma_first_index_char(hs, hs[p], p);
    lemma_step_index_bounds(GameAction::PrevWindow, n, c);
    lemma_step_index_bounds(GameAction::NextWindow, p, c);
}

/// The foreground window after `k` presses of the next-window hotkey,
/// starting with `foreground` in the foreground, where each press brings its
/// target to the foreground.
pub open spec fn after_next_presses(ws: Seq<DofusWindow>, foreground: isize, k: nat) -> isize
    decreases k,
{
    if k == 0 {
        foreground
    } else {
        match execute_target(GameAction::NextWindow, ws, after_next_presses(ws, foreground, (k - 1) as nat)) {
            Some(h) => h,
            None => foreground,
        }
    }
}

proof fn lemma_next_from_index(ws: Seq<DofusWindow>, j: int)
    requires
        handles_unique(handles(ws)),
        0 <= j < handles(ws).len(),
    ensures
        execute_target(GameAction::NextWindow, ws, handles(ws)[j])
            == Some(handles(ws)[(j + 1) % (handles(ws).len() as int)]),
{
    let hs = handles(ws);
    lemma_first_index_char(hs, hs[j], j);
    lemma_step_index_bounds(GameAction::NextWindow, j, hs.len() as int);
}

proof fn lemma_after_next_presses(ws: Seq<DofusWindow>, i: int, k: nat)
    requires
        handles_unique(handles(ws)),
        0 <= i < handles(ws).len(),
    ensures
        after_next_presses(ws, handles(ws)[i], k) == handles(ws)[(i + k) % (handles(ws).len() as int)],
    decreases k,
{
    let hs = handles(ws);
    let n = hs.len() as int;
    if k == 0 {
        vstd::arithmetic::div_mod::lemma_small_mod(i as nat, n as nat);
    } else {
        lemma_after_next_presses(ws, i, (k - 1) as nat);
        let j = (i + k - 1) % n;
        vstd::arithmetic::div_mod::lemma_mod_pos_bound(i + k - 1, n);
        lemma_next_from_index(ws, j);
        vstd::arithmetic::div_mod::lemma_add_mod_noop_right(1, i + k - 1, n);
        assert((j + 1) % n == (i + k) % n);
    }
}

/// Law: where no handle is listed twice and the foreground window is the
/// `i`-th listed, `n` presses of the next-window hotkey (`n` windows listed)
/// bring every listed window to the foreground exactly once, in list order
/// from the one after it, and end on it again.
pub proof fn law_next_presses_visit_every_window(ws: Seq<DofusWindow>, i: int)
    requires
        handles_unique(handles(ws)),
        0 <= i < handles(ws).len(),
    ensures
        ({
            let hs = handles(ws);
            let n = hs.len();
            &&& forall|k: nat| #[trigger] after_next_presses(ws, hs[i], k) == hs[(i + k) % (n as int)]
            &&& after_next_presses(ws, hs[i], n) == hs[i]
            &&& forall|a: nat, b: nat| 1 <= a < b <= n ==>
                #[trigger] after_next_presses(ws, hs[i], a) != #[trigger] after_next_presses(ws, hs[i], b)
            &&& forall|j: int| #![trigger hs[j]] 0 <= j < n ==>
                exists|k: nat| 1 <= k <= n && #[trigger] after_next_presses(ws, hs[i], k) == hs[j]
        }),
{
    let hs = handles(ws);
    let n = hs.len() as int;
    assert forall|k: nat| #[trigger] after_next_presses(ws, hs[i], k) == hs[(i + k) % n] by {
        lemma_after_next_presses(ws, i, k);
    }
    assert(after_next_presses(ws, hs[i], n as nat) == hs[i]) by {
        lemma_after_next_presses(ws, i, n as nat);
        vstd::arithmetic::div_mod::lemma_add_mod_noop_right(i, n, n);
        vstd::arithmetic::div_mod::lemma_mod_self_0(n);
        vstd::arithmetic::div_mod::lemma_small_mod(i as nat, n as nat);
    }
    assert forall|a: nat, b: nat| 1 <= a < b <= n implies
        #[trigger] after_next_presses(ws, hs[i], a) != #[trigger] after_next_presses(ws, hs[i], b) by {
        lemma_after_next_presses(ws, i, a);
        lemma_after_next_presses(ws, i, b);
        let x = (i + a) % n;
        let y = (i + b) % n;
        vstd::arithmetic::div_mod::lemma_mod_pos_bound(i + a, n);
        vstd::arithmetic::div_mod::lemma_mod_pos_bound(i + b, n);
        if x == y {
            vstd::arithmetic::div_mod::lemma_mod_equivalence(i + b, i + a, n);
            vstd::arithmetic::div_mod::lemma_small_mod((b - a) as nat, n as nat);
            assert(((i + b) - (i + a)) == b - a);
        }
    }
    assert forall|j: int| #![trigger hs[j]] 0 <= j < n implies
        exists|k: nat| 1 <= k <= n && #[trigger] after_next_presses(ws, hs[i], k) == hs[j] by {
        let k: nat = if j <= i { (j - i + n) as nat } else { (j - i) as nat };
        lemma_after_next_presses(ws, i, k);
        if j <= i {
            vstd::arithmetic::div_mod::lemma_add_mod_noop_right(j, n, n);
            vstd::arithmetic::div_mod::lemma_mod_self_0(n);
            vstd::arithmetic::div_mod::lemma_small_mod(j as nat, n as nat);
            assert(i + k == j + n);
        } else {
            vstd::arithmetic::div_mod::lemma_small_mod(j as nat, n as nat);
        }
        assert(after_next_presses(ws, hs[i], k) == hs[j]);
    }
}

/// Law: one press of a hotkey moves the focus one place along the list,
/// wrapping around. From the first listed occurrence `i` of the foreground
/// window, "next" focuses the window at `i + 1` (the first one after the
/// last) and "previous" the one at `i - 1` (the last one before the first).
/// Where the foreground window is not listed, "next" focuses the first
/// window and "previous" the one before the last (the only one, where there
/// is one).
pub proof fn law_one_step_along_the_list(ws: Seq<DofusWindow>, foreground: isize, i: int)
    ensures
        ({
            let hs = handles(ws);
            let n = hs.len() as int;
            n > 0 && !hs.contains(foreground) ==> {
                &&& execute_target(GameAction::NextWindow, ws, foreground) == Some(hs[0])
                &&& execute_target(GameAction::PrevWindow, ws, foreground)
                    == Some(if n >= 2 { hs[n - 2] } else { hs[0] })
            }
        }),
        ({
            let hs = handles(ws);
            let n = hs.len() as int;
            0 <= i < n && hs[i] == foreground && (forall|j: int| 0 <= j < i ==> hs[j] != foreground) ==> {
                &&& execute_target(GameAction::NextWindow, ws, foreground)
                    == Some(if i + 1 < n { hs[i + 1] } else { hs[0] })
                &&& execute_target(GameAction::PrevWindow, ws, foreground)
                    == Some(if i > 0 { hs[i - 1] } else { hs[n - 1] })
            }
        }),
{
    let hs = handles(ws);
    let n = hs.len() as int;
    lemma_first_index_bounds(hs, foreground);
    if n > 0 && !hs.contains(foreground) {
        if first_index(hs, foreground) >= 0 {
            assert(hs.contains(hs[first_index(hs, foreground)]));
        }
        lemma_step_index_bounds(GameAction::NextWindow, n - 1, n);
        lemma_step_index_bounds(GameAction::PrevWindow, n - 1, n);
    }
    if 0 <= i < n && hs[i] == foreground && (forall|j: int| 0 <= j < i ==> hs[j] != foreground) {
        lemma_first_index_char(hs, foreground, i);
        lemma_step_index_bounds(GameAction::NextWindow, i, n);
        lemma_step_index_bounds(GameAction::PrevWindow, i, n);
    }
}

} // verus!
