//! Window snapping: the size cycle of each direction, the step that a
//! press lands on given the remembered previous press, the sway command
//! that it sends, and the text of the state file that remembers it.
use vstd::prelude::*;
use crate::text::{
    chars_of, extend_chars, extend_str, int_text, lines, lines_of, nat_text, parse_u64,
    parse_u64_spec, parse_usize, parse_usize_spec, string_of, u64_text,
};

verus! {

/// How long a snap state stays current, in milliseconds.
pub const CYCLE_TIMEOUT_MS: u64 = 1500;

/// One size and position of a snap cycle, as sway `ppt` expressions.
pub struct SnapGeometry {
    pub w: &'static str,
    pub h: &'static str,
    pub x: &'static str,
    pub y: &'static str,
}

impl View for SnapGeometry {
    type V = (Seq<char>, Seq<char>, Seq<char>, Seq<char>);

    open spec fn view(&self) -> (Seq<char>, Seq<char>, Seq<char>, Seq<char>) {
        (self.w@, self.h@, self.x@, self.y@)
    }
}

/// The last snap: its direction, its step in the cycle, and when it
/// happened (milliseconds since the epoch).
#[derive(Debug)]
pub struct SnapState {
    pub direction: String,
    pub step: usize,
    pub timestamp: u64,
}

/// What a snap does: the command to send to sway, and the step to
/// remember for the next press.
#[derive(Debug)]
pub struct SnapPlan {
    pub command: String,
    pub step: usize,
}

pub open spec fn geo(w: &str, h: &str, x: &str, y: &str) -> (
    Seq<char>,
    Seq<char>,
    Seq<char>,
    Seq<char>,
) {
    (w@, h@, x@, y@)
}

/// The sizes that repeated snaps in `direction` cycle through: half,
/// third, two thirds (for `center`: 60%, 50%, 33% wide); empty for an
/// unknown direction.
pub open spec fn edge_cycle_spec(direction: Seq<char>) -> Seq<
    (Seq<char>, Seq<char>, Seq<char>, Seq<char>),
> {
    if direction == "left"@ {
        seq![
            geo("50ppt", "100ppt", "0", "0"),
            geo("33ppt", "100ppt", "0", "0"),
            geo("67ppt", "100ppt", "0", "0"),
        ]
    } else if direction == "right"@ {
        seq![
            geo("50ppt", "100ppt", "50ppt", "0"),
            geo("33ppt", "100ppt", "67ppt", "0"),
            geo("67ppt", "100ppt", "33ppt", "0"),
        ]
    } else if direction == "up"@ {
        seq![
            geo("100ppt", "50ppt", "0", "0"),
            geo("100ppt", "33ppt", "0", "0"),
            geo("100ppt", "67ppt", "0", "0"),
        ]
    } else if direction == "down"@ {
        seq![
            geo("100ppt", "50ppt", "0", "50ppt"),
            geo("100ppt", "33ppt", "0", "67ppt"),
            geo("100ppt", "67ppt", "0", "33ppt"),
        ]
    } else if direction == "topleft"@ {
        seq![
            geo("50ppt", "50ppt", "0", "0"),
            geo("33ppt", "50ppt", "0", "0"),
            geo("67ppt", "50ppt", "0", "0"),
        ]
    } else if direction == "topright"@ {
        seq![
            geo("50ppt", "50ppt", "50ppt", "0"),
            geo("33ppt", "50ppt", "67ppt", "0"),
            geo("67ppt", "50ppt", "33ppt", "0"),
        ]
    } else if direction == "bottomleft"@ {
        seq![
            geo("50ppt", "50ppt", "0", "50ppt"),
            geo("33ppt", "50ppt", "0", "50ppt"),
            geo("67ppt", "50ppt", "0", "50ppt"),
        ]
    } else if direction == "bottomright"@ {
        seq![
            geo("50ppt", "50ppt", "50ppt", "50ppt"),
            geo("33ppt", "50ppt", "67ppt", "50ppt"),
            geo("67ppt", "50ppt", "33ppt", "50ppt"),
        ]
    } else if direction == "center"@ {
        seq![
            geo("60ppt", "80ppt", "center", "center"),
            geo("50ppt", "70ppt", "center", "center"),
            geo("33ppt", "60ppt", "center", "center"),
        ]
    } else {
        seq![]
    }
}

fn three(a: SnapGeometry, b: SnapGeometry, c: SnapGeometry) -> (r: Vec<SnapGeometry>)
    ensures
        r@.map_values(|g: SnapGeometry| g@) == seq![a@, b@, c@],
{
    let mut r: Vec<SnapGeometry> = Vec::new();
    r.push(a);
    r.push(b);
    r.push(c);
    assert(r@.map_values(|g: SnapGeometry| g@) =~= seq![a@, b@, c@]);
    r
}

/// The snap cycle of a direction.
pub fn edge_cycle(direction: &str) -> (r: Vec<SnapGeometry>)
    ensures
        r@.map_values(|g: SnapGeometry| g@) == edge_cycle_spec(direction@),
{
    let d = chars_of(direction);
    if crate::text::eq_str(&d, "left") {
        three(
            SnapGeometry { w: "50ppt", h: "100ppt", x: "0", y: "0" },
            SnapGeometry { w: "33ppt", h: "100ppt", x: "0", y: "0" },
            SnapGeometry { w: "67ppt", h: "100ppt", x: "0", y: "0" },
        )
    } else if crate::text::eq_str(&d, "right") {
        three(
            SnapGeometry { w: "50ppt", h: "100ppt", x: "50ppt", y: "0" },
            SnapGeometry { w: "33ppt", h: "100ppt", x: "67ppt", y: "0" },
            SnapGeometry { w: "67ppt", h: "100ppt", x: "33ppt", y: "0" },
        )
    } else if crate::text::eq_str(&d, "up") {
        three(
            SnapGeometry { w: "100ppt", h: "50ppt", x: "0", y: "0" },
            SnapGeometry { w: "100ppt", h: "33ppt", x: "0", y: "0" },
            SnapGeometry { w: "100ppt", h: "67ppt", x: "0", y: "0" },
        )
    } else if crate::text::eq_str(&d, "down") {
        three(
            SnapGeometry { w: "100ppt", h: "50ppt", x: "0", y: "50ppt" },
            SnapGeometry { w: "100ppt", h: "33ppt", x: "0", y: "67ppt" },
            SnapGeometry { w: "100ppt", h: "67ppt", x: "0", y: "33ppt" },
        )
    } else if crate::text::eq_str(&d, "topleft") {
        three(
            SnapGeometry { w: "50ppt", h: "50ppt", x: "0", y: "0" },
            SnapGeometry { w: "33ppt", h: "50ppt", x: "0", y: "0" },
            SnapGeometry { w: "67ppt", h: "50ppt", x: "0", y: "0" },
        )
    } else if crate::text::eq_str(&d, "topright") {
        three(
            SnapGeometry { w: "50ppt", h: "50ppt", x: "50ppt", y: "0" },
            SnapGeometry { w: "33ppt", h: "50ppt", x: "67ppt", y: "0" },
            SnapGeometry { w: "67ppt", h: "50ppt", x: "33ppt", y: "0" },
        )
    } else if crate::text::eq_str(&d, "bottomleft") {
        three(
            SnapGeometry { w: "50ppt", h: "50ppt", x: "0", y: "50ppt" },
            SnapGeometry { w: "33ppt", h: "50ppt", x: "0", y: "50ppt" },
            SnapGeometry { w: "67ppt", h: "50ppt", x: "0", y: "50ppt" },
        )
    } else if crate::text::eq_str(&d, "bottomright") {
        three(
            SnapGeometry { w: "50ppt", h: "50ppt", x: "50ppt", y: "50ppt" },
            SnapGeometry { w: "33ppt", h: "50ppt", x: "67ppt", y: "50ppt" },
            SnapGeometry { w: "67ppt", h: "50ppt", x: "33ppt", y: "50ppt" },
        )
    } else if crate::text::eq_str(&d, "center") {
        three(
            SnapGeometry { w: "60ppt", h: "80ppt", x: "center", y: "center" },
            SnapGeometry { w: "50ppt", h: "70ppt", x: "center", y: "center" },
            SnapGeometry { w: "33ppt", h: "60ppt", x: "center", y: "center" },
        )
    } else {
        let r: Vec<SnapGeometry> = Vec::new();
        assert(r@.map_values(|g: SnapGeometry| g@) =~= Seq::empty());
        r
    }
}

// ── Choosing the step ───────────────────────────────────────

/// `a.saturating_sub(b)`.
pub open spec fn saturating_sub(a: u64, b: u64) -> u64 {
    if a >= b {
        (a - b) as u64
    } else {
        0
    }
}

impl View for SnapState {
    type V = (Seq<char>, usize, u64);

    open spec fn view(&self) -> (Seq<char>, usize, u64) {
        (self.direction@, self.step, self.timestamp)
    }
}

pub open spec fn saved_view(saved: Option<SnapState>) -> Option<(Seq<char>, usize, u64)> {
    match saved {
        Some(s) => Some(s@),
        None => None,
    }
}

/// Whether the saved state (direction, step, time) continues the cycle of
/// `direction` at `now`: same direction, less than the timeout ago.
pub open spec fn continues(saved: (Seq<char>, usize, u64), direction: Seq<char>, now: u64) -> bool {
    saved.0 == direction && saturating_sub(now, saved.2) < CYCLE_TIMEOUT_MS
}

/// The step that a press in a direction with a cycle of `len` sizes
/// lands on: the next one after the saved step if it continues the
/// cycle, else the first.
pub open spec fn next_step(saved: Option<(Seq<char>, usize, u64)>, direction: Seq<char>, now: u64, len: nat) -> nat
    recommends
        len > 0,
{
    match saved {
        Some(s) => if continues(s, direction, now) {
            ((s.1 + 1) % (len as int)) as nat
        } else {
            0
        },
        None => 0,
    }
}

/// The sway command that applies a geometry.
pub open spec fn geometry_command(g: (Seq<char>, Seq<char>, Seq<char>, Seq<char>)) -> Seq<char> {
    if g.2 == "center"@ {
        "floating enable, resize set width "@ + g.0 + " height "@ + g.1
            + ", move position center"@
    } else {
        "floating enable, resize set width "@ + g.0 + " height "@ + g.1 + ", move position "@
            + g.2 + " "@ + g.3
    }
}

pub open spec fn maximize_command() -> Seq<char> {
    "floating enable, resize set width 100ppt height 100ppt, move position 0 0"@
}

pub open spec fn unknown_direction_error(direction: Seq<char>) -> Seq<char> {
    "Unknown direction: "@ + direction
        + ". Use: left, right, up, down, topleft, topright, bottomleft, bottomright, center, maximize, restore"@
}

/// Whether a press would overflow the saved step: a direction that
/// cycles, continuing a cycle whose saved step is `usize::MAX`.
pub open spec fn snap_overflows(direction: Seq<char>, saved: Option<SnapState>, now: u64) -> bool {
    &&& edge_cycle_spec(direction).len() > 0
    &&& saved matches Some(s)
    &&& continues(s@, direction, now)
    &&& s.step == usize::MAX
}

/// Whether `snap` cannot take this press (see `snap_overflows`).
pub fn snap_would_overflow(direction: &str, saved: &Option<SnapState>, now: u64) -> (r: bool)
    ensures
        r == snap_overflows(direction@, *saved, now),
{
    match saved {
        Some(s) => {
            if s.step != usize::MAX || edge_cycle(direction).len() == 0 {
                return false;
            }
            let elapsed = if now >= s.timestamp {
                now - s.timestamp
            } else {
                0
            };
            crate::text::chars_eq(&chars_of(s.direction.as_str()), &chars_of(direction))
                && elapsed < CYCLE_TIMEOUT_MS
        },
        None => false,
    }
}

/// What a snap in `direction` does, given the state of the last snap and
/// the time: `maximize` and `restore` act at once and remember step 0;
/// an edge or `center` direction sends the geometry of its next step; any
/// other direction is an error.
pub fn snap(direction: &str, saved: Option<SnapState>, now: u64) -> (r: Result<SnapPlan, String>)
    requires
        !snap_overflows(direction@, saved, now),
    ensures
        direction@ == "maximize"@ ==> (r matches Ok(p) && p.command@ == maximize_command()
            && p.step == 0),
        direction@ == "restore"@ ==> (r matches Ok(p) && p.command@ == "floating disable"@
            && p.step == 0),
        direction@ != "maximize"@ && direction@ != "restore"@ ==> {
            let cycle = edge_cycle_spec(direction@);
            if cycle.len() == 0 {
                r matches Err(e) && e@ == unknown_direction_error(direction@)
            } else {
                let step = next_step(saved_view(saved), direction@, now, cycle.len());
                r matches Ok(p) && p.step == step && p.command@ == geometry_command(cycle[step as int])
            }
        },
{
    let d = chars_of(direction);
    if crate::text::eq_str(&d, "maximize") {
        proof {
            reveal_strlit("maximize");
            reveal_strlit("restore");
            assert("maximize"@.len() == 8);
            assert("restore"@.len() == 7);
        }
        return Ok(
            SnapPlan {
                command: String::from_str(
                    "floating enable, resize set width 100ppt height 100ppt, move position 0 0",
                ),
                step: 0,
            },
        );
    }
    if crate::text::eq_str(&d, "restore") {
        return Ok(SnapPlan { command: String::from_str("floating disable"), step: 0 });
    }
    let cycle = edge_cycle(direction);
    let ghost cv = cycle@.map_values(|g: SnapGeometry| g@);
    if cycle.len() == 0 {
        let mut e = chars_of("Unknown direction: ");
        extend_chars(&mut e, &d);
        extend_str(
            &mut e,
            ". Use: left, right, up, down, topleft, topright, bottomleft, bottomright, center, maximize, restore",
        );
        return Err(string_of(&e));
    }
    let step: usize = match &saved {
        Some(s) => {
            let elapsed = if now >= s.timestamp {
                now - s.timestamp
            } else {
                0
            };
            let sd = chars_of(s.direction.as_str());
            if crate::text::chars_eq(&sd, &d) && elapsed < CYCLE_TIMEOUT_MS {
                (s.step + 1) % cycle.len()
            } else {
                0
            }
        },
        None => 0,
    };
    let g = &cycle[step];
    assert(cv[step as int] == g@);
    let mut cmd = chars_of("floating enable, resize set width ");
    extend_str(&mut cmd, g.w);
    extend_str(&mut cmd, " height ");
    extend_str(&mut cmd, g.h);
    let x = chars_of(g.x);
    if crate::text::eq_str(&x, "center") {
        extend_str(&mut cmd, ", move position center");
    } else {
        extend_str(&mut cmd, ", move position ");
        extend_str(&mut cmd, g.x);
        extend_str(&mut cmd, " ");
        extend_str(&mut cmd, g.y);
    }
    Ok(SnapPlan { command: string_of(&cmd), step })
}

// ── The state file ──────────────────────────────────────────

/// The state file's text: direction, step and time, one per line.
pub open spec fn snap_state_text_spec(direction: Seq<char>, step: nat, now: nat) -> Seq<char> {
    direction + "\n"@ + nat_text(step) + "\n"@ + nat_text(now) + "\n"@
}

/// The state read from a state file's text: its first three lines, the
/// second and third read as numbers; `None` if one is missing or is no
/// number.
pub open spec fn parse_snap_state_spec(content: Seq<char>) -> Option<(Seq<char>, usize, u64)> {
    let ls = lines(content);
    if ls.len() < 3 {
        None
    } else {
        match (parse_usize_spec(ls[1]), parse_u64_spec(ls[2])) {
            (Some(step), Some(t)) => Some((ls[0], step, t)),
            _ => None,
        }
    }
}

/// The text of the state file after a snap.
pub fn snap_state_text(direction: &str, step: usize, now: u64) -> (r: String)
    ensures
        r@ == snap_state_text_spec(direction@, step as nat, now as nat),
{
    let mut v = chars_of(direction);
    extend_str(&mut v, "\n");
    let s = u64_text(step as u64);
    extend_chars(&mut v, &s);
    extend_str(&mut v, "\n");
    let t = u64_text(now);
    extend_chars(&mut v, &t);
    extend_str(&mut v, "\n");
    string_of(&v)
}

/// Reads the state file's text.
pub fn parse_snap_state(content: &str) -> (r: Option<SnapState>)
    ensures
        match r {
            Some(s) => parse_snap_state_spec(content@) == Some((s.direction@, s.step, s.timestamp)),
            None => parse_snap_state_spec(content@) is None,
        },
{
    let cv = chars_of(content);
    let ls = lines_of(&cv);
    if ls.len() < 3 {
        return None;
    }
    let step = parse_usize(&ls[1]);
    let t = parse_u64(&ls[2]);
    match (step, t) {
        (Some(step), Some(t)) => Some(
            SnapState { direction: string_of(&ls[0]), step, timestamp: t },
        ),
        _ => None,
    }
}

// ── Laws ────────────────────────────────────────────────────

/// The sizes each direction cycles through, as sway `ppt` expressions
/// (width, height, x, y): halves, thirds and two thirds against the edge
/// or corner the direction names; for `center`, 60, 50 and 33 percent
/// wide, centered.
pub proof fn lemma_edge_cycle_sizes()
    ensures
        edge_cycle_spec("left"@) == seq![("50ppt"@, "100ppt"@, "0"@, "0"@), ("33ppt"@, "100ppt"@, "0"@, "0"@), ("67ppt"@, "100ppt"@, "0"@, "0"@)],
        edge_cycle_spec("right"@) == seq![("50ppt"@, "100ppt"@, "50ppt"@, "0"@), ("33ppt"@, "100ppt"@, "67ppt"@, "0"@), ("67ppt"@, "100ppt"@, "33ppt"@, "0"@)],
        edge_cycle_spec("up"@) == seq![("100ppt"@, "50ppt"@, "0"@, "0"@), ("100ppt"@, "33ppt"@, "0"@, "0"@), ("100ppt"@, "67ppt"@, "0"@, "0"@)],
        edge_cycle_spec("down"@) == seq![("100ppt"@, "50ppt"@, "0"@, "50ppt"@), ("100ppt"@, "33ppt"@, "0"@, "67ppt"@), ("100ppt"@, "67ppt"@, "0"@, "33ppt"@)],
        edge_cycle_spec("topleft"@) == seq![("50ppt"@, "50ppt"@, "0"@, "0"@), ("33ppt"@, "50ppt"@, "0"@, "0"@), ("67ppt"@, "50ppt"@, "0"@, "0"@)],
        edge_cycle_spec("topright"@) == seq![("50ppt"@, "50ppt"@, "50ppt"@, "0"@), ("33ppt"@, "50ppt"@, "67ppt"@, "0"@), ("67ppt"@, "50ppt"@, "33ppt"@, "0"@)],
        edge_cycle_spec("bottomleft"@) == seq![("50ppt"@, "50ppt"@, "0"@, "50ppt"@), ("33ppt"@, "50ppt"@, "0"@, "50ppt"@), ("67ppt"@, "50ppt"@, "0"@, "50ppt"@)],
        edge_cycle_spec("bottomright"@) == seq![("50ppt"@, "50ppt"@, "50ppt"@, "50ppt"@), ("33ppt"@, "50ppt"@, "67ppt"@, "50ppt"@), ("67ppt"@, "50ppt"@, "33ppt"@, "50ppt"@)],
        edge_cycle_spec("center"@) == seq![("60ppt"@, "80ppt"@, "center"@, "center"@), ("50ppt"@, "70ppt"@, "center"@, "center"@), ("33ppt"@, "60ppt"@, "center"@, "center"@)],
{
    reveal_strlit("left");
    reveal_strlit("right");
    reveal_strlit("up");
    reveal_strlit("down");
    reveal_strlit("topleft");
    reveal_strlit("topright");
    reveal_strlit("bottomleft");
    reveal_strlit("bottomright");
    reveal_strlit("center");
    reveal_strlit("0");
    reveal_strlit("center");
    assert("right"@.len() != "left"@.len());
    assert("up"@.len() != "left"@.len());
    assert("up"@.len() != "right"@.len());
    assert("down"@[0] != "left"@[0]);
    assert("down"@.len() != "right"@.len());
    assert("down"@.len() != "up"@.len());
    assert("topleft"@.len() != "left"@.len());
    assert("topleft"@.len() != "right"@.len());
    assert("topleft"@.len() != "up"@.len());
    assert("topleft"@.len() != "down"@.len());
    assert("topright"@.len() != "left"@.len());
    assert("topright"@.len() != "right"@.len());
    assert("topright"@.len() != "up"@.len());
    assert("topright"@.len() != "down"@.len());
    assert("topright"@.len() != "topleft"@.len());
    assert("bottomleft"@.len() != "left"@.len());
    assert("bottomleft"@.len() != "right"@.len());
    assert("bottomleft"@.len() != "up"@.len());
    assert("bottomleft"@.len() != "down"@.len());
    assert("bottomleft"@.len() != "topleft"@.len());
    assert("bottomleft"@.len() != "topright"@.len());
    assert("bottomright"@.len() != "left"@.len());
    assert("bottomright"@.len() != "right"@.len());
    assert("bottomright"@.len() != "up"@.len());
    assert("bottomright"@.len() != "down"@.len());
    assert("bottomright"@.len() != "topleft"@.len());
    assert("bottomright"@.len() != "topright"@.len());
    assert("bottomright"@.len() != "bottomleft"@.len());
    assert("center"@.len() != "left"@.len());
    assert("center"@.len() != "right"@.len());
    assert("center"@.len() != "up"@.len());
    assert("center"@.len() != "down"@.len());
    assert("center"@.len() != "topleft"@.len());
    assert("center"@.len() != "topright"@.len());
    assert("center"@.len() != "bottomleft"@.len());
    assert("center"@.len() != "bottomright"@.len());
}

/// The command of a first press in each direction: the first size of its
/// cycle, placed against the edge (or centered).
pub proof fn lemma_first_snap_commands()
    ensures
        geometry_command(edge_cycle_spec("left"@)[0]) == "floating enable, resize set width 50ppt height 100ppt, move position 0 0"@,
        geometry_command(edge_cycle_spec("right"@)[0]) == "floating enable, resize set width 50ppt height 100ppt, move position 50ppt 0"@,
        geometry_command(edge_cycle_spec("up"@)[0]) == "floating enable, resize set width 100ppt height 50ppt, move position 0 0"@,
        geometry_command(edge_cycle_spec("down"@)[0]) == "floating enable, resize set width 100ppt height 50ppt, move position 0 50ppt"@,
        geometry_command(edge_cycle_spec("topleft"@)[0]) == "floating enable, resize set width 50ppt height 50ppt, move position 0 0"@,
        geometry_command(edge_cycle_spec("topright"@)[0]) == "floating enable, resize set width 50ppt height 50ppt, move position 50ppt 0"@,
        geometry_command(edge_cycle_spec("bottomleft"@)[0]) == "floating enable, resize set width 50ppt height 50ppt, move position 0 50ppt"@,
        geometry_command(edge_cycle_spec("bottomright"@)[0]) == "floating enable, resize set width 50ppt height 50ppt, move position 50ppt 50ppt"@,
        geometry_command(edge_cycle_spec("center"@)[0]) == "floating enable, resize set width 60ppt height 80ppt, move position center"@,
{
    lemma_edge_cycle_sizes();
    reveal_strlit("left");
    reveal_strlit("right");
    reveal_strlit("up");
    reveal_strlit("down");
    reveal_strlit("topleft");
    reveal_strlit("topright");
    reveal_strlit("bottomleft");
    reveal_strlit("bottomright");
    reveal_strlit("center");
    reveal_strlit("0");
    reveal_strlit("center");
    assert("right"@.len() != "left"@.len());
    assert("up"@.len() != "left"@.len());
    assert("up"@.len() != "right"@.len());
    assert("down"@[0] != "left"@[0]);
    assert("down"@.len() != "right"@.len());
    assert("down"@.len() != "up"@.len());
    assert("topleft"@.len() != "left"@.len());
    assert("topleft"@.len() != "right"@.len());
    assert("topleft"@.len() != "up"@.len());
    assert("topleft"@.len() != "down"@.len());
    assert("topright"@.len() != "left"@.len());
    assert("topright"@.len() != "right"@.len());
    assert("topright"@.len() != "up"@.len());
    assert("topright"@.len() != "down"@.len());
    assert("topright"@.len() != "topleft"@.len());
    assert("bottomleft"@.len() != "left"@.len());
    assert("bottomleft"@.len() != "right"@.len());
    assert("bottomleft"@.len() != "up"@.len());
    assert("bottomleft"@.len() != "down"@.len());
    assert("bottomleft"@.len() != "topleft"@.len());
    assert("bottomleft"@.len() != "topright"@.len());
    assert("bottomright"@.len() != "left"@.len());
    assert("bottomright"@.len() != "right"@.len());
    assert("bottomright"@.len() != "up"@.len());
    assert("bottomright"@.len() != "down"@.len());
    assert("bottomright"@.len() != "topleft"@.len());
    assert("bottomright"@.len() != "topright"@.len());
    assert("bottomright"@.len() != "bottomleft"@.len());
    assert("center"@.len() != "left"@.len());
    assert("center"@.len() != "right"@.len());
    assert("center"@.len() != "up"@.len());
    assert("center"@.len() != "down"@.len());
    assert("center"@.len() != "topleft"@.len());
    assert("center"@.len() != "topright"@.len());
    assert("center"@.len() != "bottomleft"@.len());
    assert("center"@.len() != "bottomright"@.len());
    reveal_strlit("floating enable, resize set width ");
    reveal_strlit(" height ");
    reveal_strlit(", move position center");
    reveal_strlit(", move position ");
    reveal_strlit(" ");
    reveal_strlit("100ppt");
    reveal_strlit("50ppt");
    reveal_strlit("60ppt");
    reveal_strlit("80ppt");
    reveal_strlit("floating enable, resize set width 50ppt height 100ppt, move position 0 0");
    assert(geometry_command(edge_cycle_spec("left"@)[0]) =~= "floating enable, resize set width 50ppt height 100ppt, move position 0 0"@);
    reveal_strlit("floating enable, resize set width 50ppt height 100ppt, move position 50ppt 0");
    assert(geometry_command(edge_cycle_spec("right"@)[0]) =~= "floating enable, resize set width 50ppt height 100ppt, move position 50ppt 0"@);
    reveal_strlit("floating enable, resize set width 100ppt height 50ppt, move position 0 0");
    assert(geometry_command(edge_cycle_spec("up"@)[0]) =~= "floating enable, resize set width 100ppt height 50ppt, move position 0 0"@);
    reveal_strlit("floating enable, resize set width 100ppt height 50ppt, move position 0 50ppt");
    assert(geometry_command(edge_cycle_spec("down"@)[0]) =~= "floating enable, resize set width 100ppt height 50ppt, move position 0 50ppt"@);
    reveal_strlit("floating enable, resize set width 50ppt height 50ppt, move position 0 0");
    assert(geometry_command(edge_cycle_spec("topleft"@)[0]) =~= "floating enable, resize set width 50ppt height 50ppt, move position 0 0"@);
    reveal_strlit("floating enable, resize set width 50ppt height 50ppt, move position 50ppt 0");
    assert(geometry_command(edge_cycle_spec("topright"@)[0]) =~= "floating enable, resize set width 50ppt height 50ppt, move position 50ppt 0"@);
    reveal_strlit("floating enable, resize set width 50ppt height 50ppt, move position 0 50ppt");
    assert(geometry_command(edge_cycle_spec("bottomleft"@)[0]) =~= "floating enable, resize set width 50ppt height 50ppt, move position 0 50ppt"@);
    reveal_strlit("floating enable, resize set width 50ppt height 50ppt, move position 50ppt 50ppt");
    assert(geometry_command(edge_cycle_spec("bottomright"@)[0]) =~= "floating enable, resize set width 50ppt height 50ppt, move position 50ppt 50ppt"@);
    reveal_strlit("floating enable, resize set width 60ppt height 80ppt, move position center");
    assert(geometry_command(edge_cycle_spec("center"@)[0]) =~= "floating enable, resize set width 60ppt height 80ppt, move position center"@);
}

/// A snap toward the top never moves the window off the top edge: every
/// size of the `up`, `topleft` and `topright` cycles has y `0`; toward
/// the left edge (`left`, `topleft`, `bottomleft`) x is `0`; `up` spans
/// the full width and `left` the full height.
pub proof fn lemma_edges_kept(k: int)
    requires
        0 <= k < 3,
    ensures
        edge_cycle_spec("up"@)[k].3 == "0"@,
        edge_cycle_spec("topleft"@)[k].3 == "0"@,
        edge_cycle_spec("topright"@)[k].3 == "0"@,
        edge_cycle_spec("left"@)[k].2 == "0"@,
        edge_cycle_spec("topleft"@)[k].2 == "0"@,
        edge_cycle_spec("bottomleft"@)[k].2 == "0"@,
        edge_cycle_spec("up"@)[k].0 == "100ppt"@,
        edge_cycle_spec("left"@)[k].1 == "100ppt"@,
{
    lemma_edge_cycle_sizes();
}


/// Every direction that snaps in steps has three sizes.
pub proof fn lemma_cycle_len(direction: Seq<char>)
    ensures
        edge_cycle_spec(direction).len() == 0 || edge_cycle_spec(direction).len() == 3,
{
}

/// The state file written after a snap reads back as what was written,
/// for a direction without line breaks.
pub proof fn lemma_snap_state_roundtrip(direction: Seq<char>, step: usize, now: u64)
    requires
        forall|i: int| 0 <= i < direction.len() ==> direction[i] != '\n',
        direction.len() > 0 ==> direction.last() != '\r',
    ensures
        parse_snap_state_spec(snap_state_text_spec(direction, step as nat, now as nat)) == Some(
            (direction, step, now),
        ),
{
    reveal_strlit("\n");
    let a = nat_text(step as nat);
    let b = nat_text(now as nat);
    crate::text::lemma_int_text_chars(step as int);
    crate::text::lemma_int_text_chars(now as int);
    assert(int_text(step as int) == a);
    assert(int_text(now as int) == b);
    let nl = seq!['\n'];
    assert("\n"@ == nl);
    let text = snap_state_text_spec(direction, step as nat, now as nat);
    assert(text == (direction + nl) + ((a + nl) + (b + nl)));
    crate::text::lemma_lines_append(direction + nl, (a + nl) + (b + nl));
    crate::text::lemma_lines_append(a + nl, b + nl);
    crate::text::lemma_lines_single(direction);
    crate::text::lemma_lines_single(a);
    crate::text::lemma_lines_single(b);
    crate::text::lemma_parse_nat_text(step as nat);
    crate::text::lemma_parse_nat_text(now as nat);
    assert(lines(text) == seq![direction, a, b]);
}

/// Repeated snaps in one direction cycle through its sizes: a press less
/// than the timeout after a press that landed on step `k` (as the state
/// file recorded it) lands on step `k + 1` modulo 3; a later press, or a
/// first press, lands on step 0.
pub proof fn lemma_snap_cycles(direction: Seq<char>, k: usize, t0: u64, now: u64)
    requires
        edge_cycle_spec(direction).len() > 0,
        forall|i: int| 0 <= i < direction.len() ==> direction[i] != '\n',
        direction.len() > 0 ==> direction.last() != '\r',
    ensures
        ({
            let saved = parse_snap_state_spec(snap_state_text_spec(direction, k as nat, t0 as nat));
            let step = next_step(saved, direction, now, edge_cycle_spec(direction).len());
            &&& saturating_sub(now, t0) < CYCLE_TIMEOUT_MS ==> step == (k + 1) % 3
            &&& saturating_sub(now, t0) >= CYCLE_TIMEOUT_MS ==> step == 0
        }),
        next_step(None, direction, now, edge_cycle_spec(direction).len()) == 0,
{
    lemma_snap_state_roundtrip(direction, k, t0);
    lemma_cycle_len(direction);
}

} // verus!
