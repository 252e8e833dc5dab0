//! The window switcher: the windows of sway's tree in most-recently-used
//! order, the window that a press of next or prev focuses (keeping the
//! order of the first press while presses follow each other quickly), and
//! the text of the state file that remembers it.
use vstd::prelude::*;
use crate::text::{
    chars_of, extend_chars, extend_str, find_char, i64_text, int_text, lines, lines_of,
    nat_text, parse_i64, parse_i64_spec, parse_u64, parse_u64_spec, parse_usize,
    parse_usize_spec, slice_chars, string_of, trim, trim_vec, u64_text,
};

verus! {

/// How long a switch cycle stays current, in milliseconds.
pub const SWITCH_TIMEOUT_MS: u64 = 1500;

/// A node of sway's tree (`swaymsg -t get_tree`).
#[derive(Debug)]
pub struct Node {
    pub id: i64,
    pub name: Option<String>,
    pub app_id: Option<String>,
    pub node_type: Option<String>,
    pub focused: bool,
    pub focus: Vec<i64>,
    pub nodes: Vec<Node>,
    pub floating_nodes: Vec<Node>,
}

// ── MRU order: specification ────────────────────────────────

pub open spec fn nonempty_text(s: Option<String>) -> bool {
    s matches Some(t) && t@.len() > 0
}

/// A window: a leaf container (tiled or floating) with a name or an
/// app id.
pub open spec fn is_window(n: Node) -> bool {
    &&& n.nodes@.len() == 0
    &&& n.floating_nodes@.len() == 0
    &&& (n.node_type matches Some(t) && (t@ == "con"@ || t@ == "floating_con"@))
    &&& (nonempty_text(n.name) || nonempty_text(n.app_id))
}

/// The number of children, tiled and floating.
pub open spec fn n_children(n: Node) -> nat {
    n.nodes@.len() + n.floating_nodes@.len()
}

/// Child `j`: the tiled children first, then the floating ones.
pub open spec fn child(n: Node, j: int) -> Node {
    if j < n.nodes@.len() {
        n.nodes@[j]
    } else {
        n.floating_nodes@[j - n.nodes@.len()]
    }
}

/// The last child (in the order of `child`) with the given id among the
/// first `k`.
pub open spec fn child_with_id_upto(n: Node, id: i64, k: nat) -> Option<int>
    decreases k,
{
    if k == 0 {
        None
    } else if child(n, k - 1).id == id {
        Some(k - 1)
    } else {
        child_with_id_upto(n, id, (k - 1) as nat)
    }
}

/// The child that a lookup of `id` finds (the last one with that id).
pub open spec fn child_with_id(n: Node, id: i64) -> Option<int> {
    child_with_id_upto(n, id, n_children(n))
}

pub proof fn lemma_child_with_id_upto(n: Node, id: i64, k: nat)
    ensures
        child_with_id_upto(n, id, k) matches Some(j) ==> 0 <= j < k && child(n, j).id == id,
        child_with_id_upto(n, id, k) is None ==> forall|j: int| 0 <= j < k ==> child(n, j).id != id,
    decreases k,
{
    if k > 0 {
        lemma_child_with_id_upto(n, id, (k - 1) as nat);
    }
}

pub proof fn lemma_child_decreases(n: Node, j: int)
    requires
        0 <= j < n_children(n),
    ensures
        decreases_to!(n => child(n, j)),
{
    if j < n.nodes@.len() {
        assert(decreases_to!(n => n.nodes));
        assert(decreases_to!(n.nodes => n.nodes@));
        assert(decreases_to!(n.nodes@ => n.nodes@[j]));
    } else {
        let jj = j - n.nodes@.len();
        assert(decreases_to!(n => n.floating_nodes));
        assert(decreases_to!(n.floating_nodes => n.floating_nodes@));
        assert(decreases_to!(n.floating_nodes@ => n.floating_nodes@[jj]));
    }
}

/// The windows under `n` in most-recently-used order: a window is itself;
/// otherwise its children are visited in the order of its `focus` list
/// (most recent first), then the children that the list does not name.
pub open spec fn mru_windows(n: Node) -> Seq<i64>
    decreases n, n.focus@.len() + n_children(n) + 1,
{
    if is_window(n) {
        seq![n.id]
    } else {
        focus_part(n, n.focus@.len()) + rest_part(n, n_children(n))
    }
}

/// The windows of the children named by the first `k` entries of `focus`.
pub open spec fn focus_part(n: Node, k: nat) -> Seq<i64>
    decreases n, k,
{
    if k == 0 || k > n.focus@.len() {
        seq![]
    } else {
        let here = match child_with_id(n, n.focus@[k - 1]) {
            Some(j) => {
                proof {
                    lemma_child_with_id_upto(n, n.focus@[k - 1], n_children(n));
                    lemma_child_decreases(n, j);
                }
                mru_windows(child(n, j))
            },
            None => seq![],
        };
        focus_part(n, (k - 1) as nat) + here
    }
}

/// The windows of the first `k` children that `focus` does not name.
pub open spec fn rest_part(n: Node, k: nat) -> Seq<i64>
    decreases n, k,
{
    if k == 0 || k > n_children(n) {
        seq![]
    } else {
        let c = child(n, k - 1);
        let here = if n.focus@.contains(c.id) {
            seq![]
        } else {
            proof {
                lemma_child_decreases(n, k - 1);
            }
            mru_windows(c)
        };
        rest_part(n, (k - 1) as nat) + here
    }
}

// ── MRU order ───────────────────────────────────────────────

fn nonempty_text_exec(s: &Option<String>) -> (r: bool)
    ensures
        r == nonempty_text(*s),
{
    match s {
        Some(t) => !t.as_str().is_empty(),
        None => false,
    }
}

fn is_window_exec(n: &Node) -> (r: bool)
    ensures
        r == is_window(*n),
{
    let leaf = n.nodes.len() == 0 && n.floating_nodes.len() == 0;
    let con = match &n.node_type {
        Some(t) => {
            let tv = chars_of(t.as_str());
            crate::text::eq_str(&tv, "con") || crate::text::eq_str(&tv, "floating_con")
        },
        None => false,
    };
    let content = nonempty_text_exec(&n.name) || nonempty_text_exec(&n.app_id);
    leaf && con && content
}

/// The child that a lookup of `id` finds: whether it is floating, and its
/// index in its list.
fn find_child(n: &Node, id: i64) -> (r: Option<(bool, usize)>)
    ensures
        match r {
            Some((f, i)) => {
                &&& f ==> i < n.floating_nodes@.len()
                &&& !f ==> i < n.nodes@.len()
                &&& child_with_id(*n, id) == Some(
                    if f {
                        n.nodes@.len() + i
                    } else {
                        i as int
                    },
                )
            },
            None => child_with_id(*n, id) is None,
        },
{
    let ghost nl = n.nodes@.len();
    let mut k = n.floating_nodes.len();
    while k > 0
        invariant
            k <= n.floating_nodes@.len(),
            nl == n.nodes@.len(),
            child_with_id(*n, id) == child_with_id_upto(*n, id, (nl + k) as nat),
        decreases k,
    {
        assert(child(*n, nl + k - 1) == n.floating_nodes@[k - 1]);
        if n.floating_nodes[k - 1].id == id {
            return Some((true, k - 1));
        }
        k -= 1;
    }
    let mut k = n.nodes.len();
    while k > 0
        invariant
            k <= n.nodes@.len(),
            nl == n.nodes@.len(),
            child_with_id(*n, id) == child_with_id_upto(*n, id, k as nat),
        decreases k,
    {
        assert(child(*n, k - 1) == n.nodes@[k - 1]);
        if n.nodes[k - 1].id == id {
            return Some((false, k - 1));
        }
        k -= 1;
    }
    None
}

fn contains_id(v: &Vec<i64>, id: i64) -> (r: bool)
    ensures
        r == v@.contains(id),
{
    let mut i: usize = 0;
    while i < v.len()
        invariant
            i <= v.len(),
            forall|j: int| 0 <= j < i ==> v@[j] != id,
        decreases v.len() - i,
    {
        if v[i] == id {
            assert(v@[i as int] == id);
            return true;
        }
        i += 1;
    }
    false
}

/// Appends the windows under `node` to `windows`, most recently used
/// first.
pub fn collect_windows_mru(node: &Node, windows: &mut Vec<i64>)
    ensures
        final(windows)@ == old(windows)@ + mru_windows(*node),
    decreases node,
{
    if is_window_exec(node) {
        windows.push(node.id);
        return;
    }
    let ghost start = windows@;
    let ghost n = *node;
    let mut k: usize = 0;
    while k < node.focus.len()
        invariant
            k <= node.focus@.len(),
            n == *node,
            windows@ == start + focus_part(n, k as nat),
        decreases node.focus.len() - k,
    {
        let ghost before = windows@;
        match find_child(node, node.focus[k]) {
            Some((f, i)) => {
                proof {
                    let j = child_with_id(n, n.focus@[k as int]).unwrap();
                    lemma_child_with_id_upto(n, n.focus@[k as int], n_children(n));
                    lemma_child_decreases(n, j);
                }
                if f {
                    assert(child(n, n.nodes@.len() + i) == n.floating_nodes@[i as int]);
                    collect_windows_mru(&node.floating_nodes[i], windows);
                } else {
                    assert(child(n, i as int) == n.nodes@[i as int]);
                    collect_windows_mru(&node.nodes[i], windows);
                }
            },
            None => {},
        }
        assert(focus_part(n, (k + 1) as nat) == focus_part(n, k as nat) + (match child_with_id(
            n,
            n.focus@[k as int],
        ) {
            Some(j) => mru_windows(child(n, j)),
            None => seq![],
        }));
        k += 1;
    }
    let ghost mid = windows@;
    assert(windows@ == start + focus_part(n, n.focus@.len()));
    let mut i: usize = 0;
    while i < node.nodes.len()
        invariant
            i <= node.nodes@.len(),
            n == *node,
            mid == start + focus_part(n, n.focus@.len()),
            windows@ == mid + rest_part(n, i as nat),
        decreases node.nodes.len() - i,
    {
        let c = &node.nodes[i];
        assert(child(n, i as int) == *c);
        if !contains_id(&node.focus, c.id) {
            proof {
                lemma_child_decreases(n, i as int);
            }
            collect_windows_mru(c, windows);
        }
        i += 1;
    }
    let ghost nl = node.nodes@.len();
    let mut i: usize = 0;
    while i < node.floating_nodes.len()
        invariant
            i <= node.floating_nodes@.len(),
            n == *node,
            nl == n.nodes@.len(),
            mid == start + focus_part(n, n.focus@.len()),
            windows@ == mid + rest_part(n, (nl + i) as nat),
        decreases node.floating_nodes.len() - i,
    {
        let c = &node.floating_nodes[i];
        assert(child(n, nl + i) == *c);
        if !contains_id(&node.focus, c.id) {
            proof {
                lemma_child_decreases(n, nl + i);
            }
            collect_windows_mru(c, windows);
        }
        i += 1;
    }
}

/// The windows of a tree, most recently used first.
pub fn windows_mru(tree: &Node) -> (r: Vec<i64>)
    ensures
        r@ == mru_windows(*tree),
{
    let mut w: Vec<i64> = Vec::new();
    collect_windows_mru(tree, &mut w);
    assert(w@ == Seq::<i64>::empty() + mru_windows(*tree));
    w
}

// ── Choosing the window ─────────────────────────────────────

/// The state of a switch cycle: the window order frozen at its first
/// press, the position reached, and the time of the last press.
#[derive(Debug)]
pub struct SwitchState {
    pub window_ids: Vec<i64>,
    pub index: usize,
    pub timestamp: u64,
}

/// What a switch does: the order and position to remember, and the
/// window to focus.
#[derive(Debug)]
pub struct SwitchPlan {
    pub window_ids: Vec<i64>,
    pub index: usize,
    pub target: i64,
}

pub open spec fn is_next(direction: Seq<char>) -> bool {
    direction == "next"@
}

pub open spec fn is_prev(direction: Seq<char>) -> bool {
    direction == "prev"@
}

pub open spec fn switch_direction_error(direction: Seq<char>) -> Seq<char> {
    "Unknown direction: "@ + direction + ". Use: next, prev"@
}

pub open spec fn sat_sub(a: u64, b: u64) -> u64 {
    if a >= b {
        (a - b) as u64
    } else {
        0
    }
}

impl View for SwitchState {
    type V = (Seq<i64>, usize, u64);

    open spec fn view(&self) -> (Seq<i64>, usize, u64) {
        (self.window_ids@, self.index, self.timestamp)
    }
}

pub open spec fn saved_view(saved: Option<SwitchState>) -> Option<(Seq<i64>, usize, u64)> {
    match saved {
        Some(s) => Some(s@),
        None => None,
    }
}

/// Whether a saved cycle (order, position, time) goes on at `now` with
/// the windows `current`: it is recent, not empty, and all of its windows
/// still exist.
pub open spec fn cycle_continues(s: (Seq<i64>, usize, u64), current: Seq<i64>, now: u64) -> bool {
    &&& sat_sub(now, s.2) < SWITCH_TIMEOUT_MS
    &&& forall|k: int| 0 <= k < s.0.len() ==> current.contains(#[trigger] s.0[k])
    &&& s.0.len() > 0
}

/// The position one step on in a cycle of `len` windows.
pub open spec fn step_index(next: bool, index: int, len: int) -> int {
    if next {
        (index + 1) % len
    } else if index == 0 {
        len - 1
    } else {
        index - 1
    }
}

/// The order and position that a press lands on (for a valid direction
/// and at least two windows): one step on in a continuing cycle; else, in
/// the current order, the second window for next and the last for prev.
pub open spec fn switch_choice(direction: Seq<char>, current: Seq<i64>, saved: Option<(Seq<i64>, usize, u64)>, now: u64) -> (
    Seq<i64>,
    int,
) {
    match saved {
        Some(s) => if cycle_continues(s, current, now) {
            (s.0, step_index(is_next(direction), s.1 as int, s.0.len() as int))
        } else {
            (current, if is_next(direction) { 1 } else { current.len() - 1 })
        },
        None => (current, if is_next(direction) { 1 } else { current.len() - 1 }),
    }
}

/// Whether a press would fail: the saved position is `usize::MAX` (next)
/// or beyond the end of the saved order (prev).
pub open spec fn switch_panics(direction: Seq<char>, current: Seq<i64>, saved: Option<SwitchState>, now: u64) -> bool {
    &&& (is_next(direction) || is_prev(direction))
    &&& current.len() > 1
    &&& saved matches Some(s)
    &&& cycle_continues(s@, current, now)
    &&& if is_next(direction) {
        s.index == usize::MAX
    } else {
        s.index > s.window_ids@.len()
    }
}

/// Checks a switch direction: `Ok` for `next` and `prev`.
pub fn check_switch_direction(direction: &str) -> (r: Result<(), String>)
    ensures
        (is_next(direction@) || is_prev(direction@)) ==> r is Ok,
        !(is_next(direction@) || is_prev(direction@)) ==> (r matches Err(e) && e@
            == switch_direction_error(direction@)),
{
    let d = chars_of(direction);
    if crate::text::eq_str(&d, "next") || crate::text::eq_str(&d, "prev") {
        Ok(())
    } else {
        let mut e = chars_of("Unknown direction: ");
        extend_chars(&mut e, &d);
        extend_str(&mut e, ". Use: next, prev");
        Err(string_of(&e))
    }
}

fn copy_ids(v: &Vec<i64>) -> (r: Vec<i64>)
    ensures
        r@ == v@,
{
    let mut r: Vec<i64> = Vec::new();
    let mut i: usize = 0;
    while i < v.len()
        invariant
            i <= v.len(),
            r@ == v@.take(i as int),
        decreases v.len() - i,
    {
        r.push(v[i]);
        i += 1;
        assert(v@.take(i as int) == v@.take(i - 1).push(v@[i - 1]));
    }
    assert(v@.take(v.len() as int) == v@);
    r
}

/// What a press of `direction` does, given the windows in current MRU
/// order, the saved cycle and the time: an error for an unknown
/// direction; nothing with fewer than two windows; else the window to
/// focus and the cycle to remember.
pub fn switch(direction: &str, current_ids: &Vec<i64>, saved: Option<SwitchState>, now: u64) -> (r: Result<Option<SwitchPlan>, String>)
    requires
        !switch_panics(direction@, current_ids@, saved, now),
    ensures
        !(is_next(direction@) || is_prev(direction@)) ==> (r matches Err(e) && e@
            == switch_direction_error(direction@)),
        (is_next(direction@) || is_prev(direction@)) && current_ids@.len() <= 1 ==> r matches Ok(None),
        (is_next(direction@) || is_prev(direction@)) && current_ids@.len() > 1 ==> {
            let (ids, index) = switch_choice(direction@, current_ids@, saved_view(saved), now);
            r matches Ok(Some(p)) && p.window_ids@ == ids && p.index == index && 0 <= index
                < ids.len() && p.target == ids[index]
        },
{
    match check_switch_direction(direction) {
        Ok(()) => {},
        Err(e) => return Err(e),
    }
    let d = chars_of(direction);
    let next = crate::text::eq_str(&d, "next");
    proof {
        reveal_strlit("next");
        reveal_strlit("prev");
        assert("next"@ != "prev"@) by {
            assert("next"@[0] != "prev"@[0]);
        }
    }
    if current_ids.len() <= 1 {
        return Ok(None);
    }
    let fresh_index = if next { 1 } else { current_ids.len() - 1 };
    let (ids, index) = match saved {
        Some(s) => {
            let elapsed = if now >= s.timestamp {
                now - s.timestamp
            } else {
                0
            };
            let mut all_exist = true;
            let mut k: usize = 0;
            while k < s.window_ids.len()
                invariant
                    k <= s.window_ids@.len(),
                    all_exist == forall|j: int|
                        0 <= j < k ==> current_ids@.contains(#[trigger] s.window_ids@[j]),
                decreases s.window_ids.len() - k,
            {
                if !contains_id(current_ids, s.window_ids[k]) {
                    all_exist = false;
                }
                k += 1;
            }
            if elapsed < SWITCH_TIMEOUT_MS && all_exist && s.window_ids.len() > 0 {
                let len = s.window_ids.len();
                let idx = if next {
                    (s.index + 1) % len
                } else if s.index == 0 {
                    len - 1
                } else {
                    s.index - 1
                };
                (s.window_ids, idx)
            } else {
                (copy_ids(current_ids), fresh_index)
            }
        },
        None => (copy_ids(current_ids), fresh_index),
    };
    let target = ids[index];
    Ok(Some(SwitchPlan { window_ids: ids, index, target }))
}

fn continues_exec(s: &SwitchState, current_ids: &Vec<i64>, now: u64) -> (r: bool)
    ensures
        r == cycle_continues(s@, current_ids@, now),
{
    let elapsed = if now >= s.timestamp {
        now - s.timestamp
    } else {
        0
    };
    let mut all_exist = true;
    let mut k: usize = 0;
    while k < s.window_ids.len()
        invariant
            k <= s.window_ids@.len(),
            all_exist == forall|j: int| 0 <= j < k ==> current_ids@.contains(#[trigger] s.window_ids@[j]),
        decreases s.window_ids.len() - k,
    {
        if !contains_id(current_ids, s.window_ids[k]) {
            all_exist = false;
        }
        k += 1;
    }
    elapsed < SWITCH_TIMEOUT_MS && all_exist && s.window_ids.len() > 0
}

/// Whether `switch` cannot take this press (see `switch_panics`).
pub fn switch_would_panic(direction: &str, current_ids: &Vec<i64>, saved: &Option<SwitchState>, now: u64) -> (r: bool)
    ensures
        r == switch_panics(direction@, current_ids@, *saved, now),
{
    let d = chars_of(direction);
    let next = crate::text::eq_str(&d, "next");
    let prev = crate::text::eq_str(&d, "prev");
    if !(next || prev) || current_ids.len() <= 1 {
        return false;
    }
    match saved {
        Some(s) => {
            if !continues_exec(s, current_ids, now) {
                return false;
            }
            if next {
                s.index == usize::MAX
            } else {
                s.index > s.window_ids.len()
            }
        },
        None => false,
    }
}

// ── The state file ──────────────────────────────────────────

/// The pieces of `s` between commas (`str::split(',')`).
pub open spec fn split_commas(s: Seq<char>) -> Seq<Seq<char>>
    decreases s.len(),
{
    match find_char(s, ',') {
        Some(k) => {
            proof {
                crate::text::lemma_find_char_bound(s, ',');
            }
            seq![s.take(k)] + split_commas(s.skip(k + 1))
        },
        None => seq![s],
    }
}

/// The ids among `pieces` that read as numbers once trimmed.
pub open spec fn ids_of(pieces: Seq<Seq<char>>) -> Seq<i64>
    decreases pieces.len(),
{
    if pieces.len() == 0 {
        seq![]
    } else {
        ids_of(pieces.drop_last()) + match parse_i64_spec(trim(pieces.last())) {
            Some(v) => seq![v],
            None => seq![],
        }
    }
}

/// The ids joined by commas.
pub open spec fn ids_text(ids: Seq<i64>) -> Seq<char>
    decreases ids.len(),
{
    if ids.len() == 0 {
        seq![]
    } else if ids.len() == 1 {
        int_text(ids[0] as int)
    } else {
        ids_text(ids.drop_last()) + ","@ + int_text(ids.last() as int)
    }
}

/// The state file's text: the ids, the position and the time, one per
/// line.
pub open spec fn switch_state_text_spec(ids: Seq<i64>, index: nat, now: nat) -> Seq<char> {
    ids_text(ids) + "\n"@ + nat_text(index) + "\n"@ + nat_text(now) + "\n"@
}

/// The state read from a state file's text.
pub open spec fn parse_switch_state_spec(content: Seq<char>) -> Option<(Seq<i64>, usize, u64)> {
    let ls = lines(content);
    if ls.len() < 3 {
        None
    } else {
        match (parse_usize_spec(ls[1]), parse_u64_spec(ls[2])) {
            (Some(i), Some(t)) => Some((ids_of(split_commas(ls[0])), i, t)),
            _ => None,
        }
    }
}

/// The text of the state file after a switch.
pub fn switch_state_text(ids: &Vec<i64>, index: usize, now: u64) -> (r: String)
    ensures
        r@ == switch_state_text_spec(ids@, index as nat, now as nat),
{
    let mut v: Vec<char> = Vec::new();
    let mut i: usize = 0;
    while i < ids.len()
        invariant
            i <= ids.len(),
            v@ == ids_text(ids@.take(i as int)),
        decreases ids.len() - i,
    {
        assert(ids@.take(i + 1).drop_last() == ids@.take(i as int));
        let ghost before = v@;
        if i > 0 {
            extend_str(&mut v, ",");
        }
        let t = i64_text(ids[i]);
        extend_chars(&mut v, &t);
        proof {
            if i == 0 {
                assert(v@ == t@);
                assert(ids@.take(1) == seq![ids@[0]]);
            } else {
                assert(v@ == before + ","@ + t@);
            }
        }
        i += 1;
    }
    assert(ids@.take(ids.len() as int) == ids@);
    extend_str(&mut v, "\n");
    let t = u64_text(index as u64);
    extend_chars(&mut v, &t);
    extend_str(&mut v, "\n");
    let t = u64_text(now);
    extend_chars(&mut v, &t);
    extend_str(&mut v, "\n");
    string_of(&v)
}

/// The ids of a comma-separated list.
fn parse_ids(s: &Vec<char>) -> (r: Vec<i64>)
    ensures
        r@ == ids_of(split_commas(s@)),
{
    let mut r: Vec<i64> = Vec::new();
    let mut pos: usize = 0;
    let ghost mut done: Seq<Seq<char>> = seq![];
    assert(s@.skip(0) == s@);
    assert(done + split_commas(s@.skip(0)) == split_commas(s@));
    loop
        invariant
            pos <= s.len(),
            split_commas(s@) == done + split_commas(s@.skip(pos as int)),
            r@ == ids_of(done),
        decreases s.len() - pos,
    {
        let ghost rest = s@.skip(pos as int);
        let (end, last) = match crate::text::find_char_from(s, pos, ',') {
            Some(k) => (k, false),
            None => (s.len(), true),
        };
        let piece = slice_chars(s, pos, end);
        let t = trim_vec(&piece);
        let ghost before = done;
        proof {
            if last {
                assert(piece@ == rest);
                assert(split_commas(rest) == seq![rest]);
            } else {
                crate::text::lemma_find_char_bound(rest, ',');
                assert(piece@ == rest.take(end - pos));
                assert(rest.skip(end - pos + 1) == s@.skip(end + 1));
                assert(split_commas(rest) == seq![piece@] + split_commas(s@.skip(end + 1)));
            }
            done = done.push(piece@);
            assert(done.drop_last() == before);
        }
        match parse_i64(&t) {
            Some(v) => r.push(v),
            None => {},
        }
        if last {
            assert(split_commas(s@) == done);
            return r;
        }
        assert(split_commas(s@) == done + split_commas(s@.skip(end + 1)));
        pos = end + 1;
    }
}

/// Reads the state file's text.
pub fn parse_switch_state(content: &str) -> (r: Option<SwitchState>)
    ensures
        match r {
            Some(s) => parse_switch_state_spec(content@) == Some(
                (s.window_ids@, s.index, s.timestamp),
            ),
            None => parse_switch_state_spec(content@) is None,
        },
{
    let cv = chars_of(content);
    let ls = lines_of(&cv);
    if ls.len() < 3 {
        return None;
    }
    let index = parse_usize(&ls[1]);
    let t = parse_u64(&ls[2]);
    match (index, t) {
        (Some(index), Some(t)) => Some(
            SwitchState { window_ids: parse_ids(&ls[0]), index, timestamp: t },
        ),
        _ => None,
    }
}

// ── Laws ────────────────────────────────────────────────────

/// A step back undoes a step forward, and a step forward undoes a step
/// back, in a cycle of `len` windows.
pub proof fn lemma_next_prev_inverse(index: int, len: int)
    requires
        0 <= index < len,
    ensures
        step_index(false, step_index(true, index, len), len) == index,
        step_index(true, step_index(false, index, len), len) == index,
        0 <= step_index(true, index, len) < len,
        0 <= step_index(false, index, len) < len,
{
    if index + 1 < len {
        assert((index + 1) % len == index + 1) by (nonlinear_arith)
            requires
                0 <= index + 1 < len,
        ;
    } else {
        assert((index + 1) % len == 0) by (nonlinear_arith)
            requires
                index + 1 == len,
                len > 0,
        ;
    }
    if index > 0 {
        assert(index % len == index) by (nonlinear_arith)
            requires
                0 <= index < len,
        ;
    } else {
        assert((len - 1 + 1) % len == 0) by (nonlinear_arith)
            requires
                len > 0,
        ;
    }
}

proof fn lemma_split_commas_append(x: Seq<char>, y: Seq<char>)
    requires
        forall|i: int| 0 <= i < y.len() ==> y[i] != ',',
    ensures
        split_commas(x + seq![','] + y) == split_commas(x) + seq![y],
    decreases x.len(),
{
    let s = x + seq![','] + y;
    crate::text::lemma_find_char_bound(x, ',');
    match find_char(x, ',') {
        Some(k) => {
            assert(s[k] == ',');
            assert forall|i: int| 0 <= i < k implies s[i] != ',' by {
                assert(s[i] == x[i]);
            }
            lemma_find_char_some_at(s, ',', k);
            assert(s.take(k) == x.take(k));
            assert(s.skip(k + 1) == x.skip(k + 1) + seq![','] + y);
            lemma_split_commas_append(x.skip(k + 1), y);
            assert(split_commas(s) == seq![x.take(k)] + split_commas(x.skip(k + 1) + seq![','] + y));
            assert(split_commas(x) == seq![x.take(k)] + split_commas(x.skip(k + 1)));
        },
        None => {
            assert(s[x.len() as int] == ',');
            assert forall|i: int| 0 <= i < x.len() implies s[i] != ',' by {
                assert(s[i] == x[i]);
                if x[i] == ',' {
                    lemma_find_char_has(x, ',', i);
                }
            }
            lemma_find_char_some_at(s, ',', x.len() as int);
            assert(s.take(x.len() as int) == x);
            assert(s.skip(x.len() as int + 1) == y);
            assert forall|i: int| 0 <= i < y.len() implies y[i] != ',' by {}
            lemma_find_char_absent(y, ',');
            assert(split_commas(y) == seq![y]);
            assert(split_commas(s) == seq![x] + split_commas(y));
            assert(split_commas(x) == seq![x]);
        },
    }
}

proof fn lemma_find_char_some_at(s: Seq<char>, c: char, k: int)
    requires
        0 <= k < s.len(),
        s[k] == c,
        forall|i: int| 0 <= i < k ==> s[i] != c,
    ensures
        find_char(s, c) == Some(k),
    decreases k,
{
    if k > 0 {
        lemma_find_char_some_at(s.drop_first(), c, k - 1);
    }
}

proof fn lemma_find_char_has(s: Seq<char>, c: char, k: int)
    requires
        0 <= k < s.len(),
        s[k] == c,
    ensures
        find_char(s, c) is Some,
    decreases k,
{
    if k > 0 && s[0] != c {
        lemma_find_char_has(s.drop_first(), c, k - 1);
    }
}

proof fn lemma_find_char_absent(s: Seq<char>, c: char)
    requires
        forall|i: int| 0 <= i < s.len() ==> s[i] != c,
    ensures
        find_char(s, c) is None,
    decreases s.len(),
{
    if s.len() > 0 {
        lemma_find_char_absent(s.drop_first(), c);
    }
}

proof fn lemma_ids_text(ids: Seq<i64>)
    ensures
        forall|k: int|
            0 <= k < ids_text(ids).len() ==> #[trigger] ids_text(ids)[k] != '\n'
                && ids_text(ids)[k] != '\r',
        ids.len() > 0 ==> split_commas(ids_text(ids)) == ids.map_values(|i: i64| int_text(i as int)),
    decreases ids.len(),
{
    reveal_strlit(",");
    if ids.len() == 1 {
        crate::text::lemma_int_text_chars(ids[0] as int);
        lemma_find_char_absent(int_text(ids[0] as int), ',');
        assert(ids.map_values(|i: i64| int_text(i as int)) == seq![int_text(ids[0] as int)]);
    } else if ids.len() > 1 {
        lemma_ids_text(ids.drop_last());
        let last = int_text(ids.last() as int);
        crate::text::lemma_int_text_chars(ids.last() as int);
        assert(","@ == seq![',']);
        let a = ids_text(ids.drop_last());
        assert(ids_text(ids) == a + seq![','] + last);
        assert forall|k: int| 0 <= k < ids_text(ids).len() implies #[trigger] ids_text(ids)[k]
            != '\n' && ids_text(ids)[k] != '\r' by {
            if k < a.len() {
                assert(ids_text(ids)[k] == a[k]);
            } else if k > a.len() {
                assert(ids_text(ids)[k] == last[k - a.len() - 1]);
            }
        }
        lemma_split_commas_append(a, last);
        assert(ids.map_values(|i: i64| int_text(i as int)) == ids.drop_last().map_values(
            |i: i64| int_text(i as int),
        ).push(last));
    }
}

proof fn lemma_ids_of_texts(ids: Seq<i64>)
    ensures
        ids_of(ids.map_values(|i: i64| int_text(i as int))) == ids,
    decreases ids.len(),
{
    if ids.len() > 0 {
        let p = ids.map_values(|i: i64| int_text(i as int));
        lemma_ids_of_texts(ids.drop_last());
        assert(p.drop_last() == ids.drop_last().map_values(|i: i64| int_text(i as int)));
        let t = int_text(ids.last() as int);
        assert(p.last() == t);
        crate::text::lemma_int_text_chars(ids.last() as int);
        assert(!crate::text::is_ws(t[0]));
        assert(!crate::text::is_ws(t.last()));
        crate::text::lemma_trim_noop(t);
        crate::text::lemma_parse_int_text(ids.last() as int);
        assert(ids.drop_last().push(ids.last()) == ids);
    }
}

/// The state file written after a switch reads back as what was
/// written.
pub proof fn lemma_switch_state_roundtrip(ids: Seq<i64>, index: usize, now: u64)
    ensures
        parse_switch_state_spec(switch_state_text_spec(ids, index as nat, now as nat)) == Some(
            (ids, index, now),
        ),
{
    reveal_strlit("\n");
    let nl = seq!['\n'];
    assert("\n"@ == nl);
    let t = ids_text(ids);
    let a = nat_text(index as nat);
    let b = nat_text(now as nat);
    lemma_ids_text(ids);
    crate::text::lemma_int_text_chars(index as int);
    crate::text::lemma_int_text_chars(now as int);
    assert(int_text(index as int) == a);
    assert(int_text(now as int) == b);
    let text = switch_state_text_spec(ids, index as nat, now as nat);
    assert(text == (t + nl) + ((a + nl) + (b + nl)));
    crate::text::lemma_lines_append(t + nl, (a + nl) + (b + nl));
    crate::text::lemma_lines_append(a + nl, b + nl);
    crate::text::lemma_lines_single(t);
    crate::text::lemma_lines_single(a);
    crate::text::lemma_lines_single(b);
    crate::text::lemma_parse_nat_text(index as nat);
    crate::text::lemma_parse_nat_text(now as nat);
    assert(lines(text) == seq![t, a, b]);
    if ids.len() == 0 {
        assert(t == Seq::<char>::empty());
        lemma_find_char_absent(t, ',');
        assert(split_commas(t) == seq![t]);
        assert(seq![t].drop_last() == Seq::<Seq<char>>::empty());
        assert(ids_of(Seq::<Seq<char>>::empty()) == Seq::<i64>::empty());
        assert(crate::text::trim(t) == t);
        assert(crate::text::unsigned_value(t) is None);
        assert(ids_of(seq![t]) == Seq::<i64>::empty());
        assert(ids == Seq::<i64>::empty());
    } else {
        lemma_ids_of_texts(ids);
    }
}

/// Presses that follow each other quickly keep the order frozen at the
/// first press and move through it one step at a time: after a press
/// that recorded order `ids` and position `index` at `t0`, a press less
/// than the timeout later, while all of those windows still exist, goes
/// one step on (or back) in the same order.
pub proof fn lemma_switch_cycles(
    direction: Seq<char>,
    current: Seq<i64>,
    ids: Seq<i64>,
    index: usize,
    t0: u64,
    now: u64,
)
    requires
        ids.len() > 0,
        index < ids.len(),
        forall|k: int| 0 <= k < ids.len() ==> current.contains(#[trigger] ids[k]),
        sat_sub(now, t0) < SWITCH_TIMEOUT_MS,
    ensures
        ({
            let saved = parse_switch_state_spec(switch_state_text_spec(ids, index as nat, t0 as nat));
            let (order, i) = switch_choice(direction, current, saved, now);
            &&& order == ids
            &&& i == step_index(is_next(direction), index as int, ids.len() as int)
            &&& 0 <= i < ids.len()
        }),
{
    lemma_switch_state_roundtrip(ids, index, t0);
    lemma_next_prev_inverse(index as int, ids.len() as int);
}

} // verus!
