//! Displays: the outputs that sway reports, oblong's own output settings,
//! the relative placement inferred from sway's coordinates, the absolute
//! coordinates resolved from relative placements, and the generated
//! `outputs.conf`.
//!
//! Sway reports an output's scale as a float; it is carried here as the
//! text that the float displays as (it is only ever written back). A
//! refresh rate in hertz is carried as its text with three decimals.
use vstd::prelude::*;
use crate::text::{
    chars_eq, split_char, chars_of, extend_chars, extend_str, find_char, i64_text, int_text, nat_text,
    parse_i32, parse_i32_spec, slice_chars, string_of, trim, trim_vec,
};

verus! {

// ── Data from swaymsg ───────────────────────────────────────

#[derive(Debug, Clone)]
pub struct SwayOutput {
    pub name: String,
    pub make: String,
    pub model: String,
    pub serial: String,
    pub rect: SwayRect,
    pub modes: Vec<SwayMode>,
    /// The scale, as the text of the float that sway reports.
    pub scale: String,
    pub transform: String,
}

#[derive(Debug, Clone, Copy)]
pub struct SwayRect {
    pub x: i32,
    pub y: i32,
    pub width: i32,
    pub height: i32,
}

#[derive(Debug, Clone, Copy)]
pub struct SwayMode {
    pub width: i32,
    pub height: i32,
    /// Millihertz.
    pub refresh: i32,
}

// ── Our output config ───────────────────────────────────────

#[derive(Debug, Clone)]
pub struct OutputConfig {
    pub name: String,
    /// e.g. "2560x1440"
    pub resolution: Option<String>,
    /// Hertz with three decimals, e.g. "59.951"
    pub refresh: Option<String>,
    /// e.g. "1" or "1.25"
    pub scale: Option<String>,
    /// e.g. "normal", "90", "180", "270"
    pub transform: Option<String>,
    pub position: Option<OutputPosition>,
}

#[derive(Debug, Clone)]
pub enum OutputPosition {
    Absolute { x: i32, y: i32 },
    LeftOf(String),
    RightOf(String),
    Above(String),
    Below(String),
}

// ── Labels and identifiers ──────────────────────────────────

/// The relations that a position can name, in the order of
/// `relation_index`.
pub open spec fn position_relations() -> Seq<Seq<char>> {
    seq!["Left of"@, "Right of"@, "Above"@, "Below"@]
}

pub fn position_relations_list() -> (r: Vec<&'static str>)
    ensures
        r@.map_values(|s: &str| s@) == position_relations(),
{
    let mut r: Vec<&'static str> = Vec::new();
    r.push("Left of");
    r.push("Right of");
    r.push("Above");
    r.push("Below");
    assert(r@.map_values(|s: &str| s@) =~= position_relations());
    r
}

pub open spec fn position_label(p: OutputPosition) -> Seq<char> {
    match p {
        OutputPosition::Absolute { x, y } => "Position "@ + int_text(x as int) + ", "@ + int_text(
            y as int,
        ),
        OutputPosition::LeftOf(n) => "Left of "@ + n@,
        OutputPosition::RightOf(n) => "Right of "@ + n@,
        OutputPosition::Above(n) => "Above "@ + n@,
        OutputPosition::Below(n) => "Below "@ + n@,
    }
}

pub open spec fn relation_index_spec(p: OutputPosition) -> usize {
    match p {
        OutputPosition::LeftOf(_) => 0,
        OutputPosition::RightOf(_) => 1,
        OutputPosition::Above(_) => 2,
        OutputPosition::Below(_) => 3,
        OutputPosition::Absolute { .. } => 4,
    }
}

pub open spec fn target_name_spec(p: OutputPosition) -> Option<Seq<char>> {
    match p {
        OutputPosition::LeftOf(n) => Some(n@),
        OutputPosition::RightOf(n) => Some(n@),
        OutputPosition::Above(n) => Some(n@),
        OutputPosition::Below(n) => Some(n@),
        OutputPosition::Absolute { .. } => None,
    }
}

fn lit_then(prefix: &str, rest: &str) -> (r: String)
    ensures
        r@ == prefix@ + rest@,
{
    let mut v = chars_of(prefix);
    extend_str(&mut v, rest);
    string_of(&v)
}

impl OutputPosition {
    /// A short description of the position.
    pub fn label(&self) -> (r: String)
        ensures
            r@ == position_label(*self),
    {
        match self {
            OutputPosition::Absolute { x, y } => {
                let mut v = chars_of("Position ");
                extend_chars(&mut v, &i64_text(*x as i64));
                extend_str(&mut v, ", ");
                extend_chars(&mut v, &i64_text(*y as i64));
                string_of(&v)
            },
            OutputPosition::LeftOf(name) => lit_then("Left of ", name.as_str()),
            OutputPosition::RightOf(name) => lit_then("Right of ", name.as_str()),
            OutputPosition::Above(name) => lit_then("Above ", name.as_str()),
            OutputPosition::Below(name) => lit_then("Below ", name.as_str()),
        }
    }

    /// The index of the relation in `position_relations` (4 for an
    /// absolute position).
    pub fn relation_index(&self) -> (r: usize)
        ensures
            r == relation_index_spec(*self),
    {
        match self {
            OutputPosition::LeftOf(_) => 0,
            OutputPosition::RightOf(_) => 1,
            OutputPosition::Above(_) => 2,
            OutputPosition::Below(_) => 3,
            OutputPosition::Absolute { .. } => 4,
        }
    }

    /// The output that a relative position refers to.
    pub fn target_name(&self) -> (r: Option<&str>)
        ensures
            match r {
                Some(n) => target_name_spec(*self) == Some(n@),
                None => target_name_spec(*self) is None,
            },
    {
        match self {
            OutputPosition::LeftOf(n) => Some(n.as_str()),
            OutputPosition::RightOf(n) => Some(n.as_str()),
            OutputPosition::Above(n) => Some(n.as_str()),
            OutputPosition::Below(n) => Some(n.as_str()),
            OutputPosition::Absolute { .. } => None,
        }
    }

    /// The position with relation `relation` (one of
    /// `position_relations`) to the output `target`; `None` for any other
    /// relation.
    pub fn with_relation(relation: &str, target: String) -> (r: Option<OutputPosition>)
        ensures
            relation@ == "Left of"@ ==> r == Some(OutputPosition::LeftOf(target)),
            relation@ == "Right of"@ ==> r == Some(OutputPosition::RightOf(target)),
            relation@ == "Above"@ ==> r == Some(OutputPosition::Above(target)),
            relation@ == "Below"@ ==> r == Some(OutputPosition::Below(target)),
            !position_relations().contains(relation@) ==> r is None,
    {
        let v = chars_of(relation);
        proof {
            reveal_strlit("Left of");
            reveal_strlit("Right of");
            reveal_strlit("Above");
            reveal_strlit("Below");
            assert("Left of"@.len() == 7 && "Right of"@.len() == 8);
            assert("Above"@.len() == 5 && "Below"@.len() == 5);
            assert("Above"@[0] != "Below"@[0]);
        }
        if crate::text::eq_str(&v, "Left of") {
            Some(OutputPosition::LeftOf(target))
        } else if crate::text::eq_str(&v, "Right of") {
            Some(OutputPosition::RightOf(target))
        } else if crate::text::eq_str(&v, "Above") {
            Some(OutputPosition::Above(target))
        } else if crate::text::eq_str(&v, "Below") {
            Some(OutputPosition::Below(target))
        } else {
            proof {
                assert forall|k: int| 0 <= k < position_relations().len() implies position_relations()[k] != relation@ by {
                    assert(k == 0 || k == 1 || k == 2 || k == 3);
                }
            }
            None
        }
    }

    /// The relative position with relation number `index` (as
    /// `relation_index` numbers them) to `target`; `None` from 4 on.
    pub fn with_relation_index(index: usize, target: String) -> (r: Option<OutputPosition>)
        ensures
            index == 0 ==> r == Some(OutputPosition::LeftOf(target)),
            index == 1 ==> r == Some(OutputPosition::RightOf(target)),
            index == 2 ==> r == Some(OutputPosition::Above(target)),
            index == 3 ==> r == Some(OutputPosition::Below(target)),
            index >= 4 ==> r is None,
    {
        if index == 0 {
            Some(OutputPosition::LeftOf(target))
        } else if index == 1 {
            Some(OutputPosition::RightOf(target))
        } else if index == 2 {
            Some(OutputPosition::Above(target))
        } else if index == 3 {
            Some(OutputPosition::Below(target))
        } else {
            None
        }
    }
}

/// The stable identifier of an output: make, model and serial, each
/// trimmed, joined by spaces, the whole trimmed.
pub open spec fn stable_id_spec(o: SwayOutput) -> Seq<char> {
    trim(trim(o.make@) + " "@ + trim(o.model@) + " "@ + trim(o.serial@))
}

pub open spec fn description_spec(o: SwayOutput) -> Seq<char> {
    trim(o.make@) + " "@ + trim(o.model@) + " ("@ + o.name@ + ")"@
}

/// The index of the first mode with the dimensions of the output's rect.
pub open spec fn current_mode_index(o: SwayOutput, k: nat) -> Option<int>
    decreases k,
{
    if k == 0 {
        None
    } else {
        match current_mode_index(o, (k - 1) as nat) {
            Some(i) => Some(i),
            None => {
                let m = o.modes@[k - 1];
                if m.width == o.rect.width && m.height == o.rect.height {
                    Some(k - 1)
                } else {
                    None
                }
            },
        }
    }
}

impl SwayOutput {
    /// `make model (name)`.
    pub fn description(&self) -> (r: String)
        ensures
            r@ == description_spec(*self),
    {
        let mut v = trim_vec(&chars_of(self.make.as_str()));
        extend_str(&mut v, " ");
        extend_chars(&mut v, &trim_vec(&chars_of(self.model.as_str())));
        extend_str(&mut v, " (");
        extend_str(&mut v, self.name.as_str());
        extend_str(&mut v, ")");
        string_of(&v)
    }

    /// An identifier that survives connector renames: make, model and serial.
    pub fn stable_id(&self) -> (r: String)
        ensures
            r@ == stable_id_spec(*self),
    {
        let mut v = trim_vec(&chars_of(self.make.as_str()));
        extend_str(&mut v, " ");
        extend_chars(&mut v, &trim_vec(&chars_of(self.model.as_str())));
        extend_str(&mut v, " ");
        extend_chars(&mut v, &trim_vec(&chars_of(self.serial.as_str())));
        string_of(&trim_vec(&v))
    }

    /// The mode in use: the first with the dimensions of the output's rect.
    pub fn current_mode(&self) -> (r: Option<&SwayMode>)
        ensures
            match r {
                Some(m) => current_mode_index(*self, self.modes@.len()) matches Some(i)
                    && self.modes@[i] == *m,
                None => current_mode_index(*self, self.modes@.len()) is None,
            },
    {
        let mut k: usize = 0;
        while k < self.modes.len()
            invariant
                k <= self.modes@.len(),
                current_mode_index(*self, k as nat) is None,
            decreases self.modes.len() - k,
        {
            let m = &self.modes[k];
            if m.width == self.rect.width && m.height == self.rect.height {
                assert(current_mode_index(*self, (k + 1) as nat) == Some(k as int));
                let mut j = k + 1;
                while j < self.modes.len()
                    invariant
                        k < j <= self.modes@.len(),
                        current_mode_index(*self, j as nat) == Some(k as int),
                    decreases self.modes.len() - j,
                {
                    j += 1;
                }
                return Some(m);
            }
            k += 1;
        }
        None
    }
}

// ── From sway's state ───────────────────────────────────────

/// A resolution as `WxH`.
pub open spec fn res_text(w: i32, h: i32) -> Seq<char> {
    int_text(w as int) + "x"@ + int_text(h as int)
}

/// Three decimal digits of a value below 1000.
pub open spec fn three_digits(n: nat) -> Seq<char> {
    seq![
        crate::text::digit_char(n / 100),
        crate::text::digit_char((n / 10) % 10),
        crate::text::digit_char(n % 10),
    ]
}

/// `m` thousandths as a decimal with three places (`{:.3}` of `m / 1000`).
pub open spec fn millis_text(m: int) -> Seq<char> {
    let a: nat = if m < 0 {
        (-m) as nat
    } else {
        m as nat
    };
    (if m < 0 {
        "-"@
    } else {
        ""@
    }) + nat_text(a / 1000) + "."@ + three_digits(a % 1000)
}

pub fn res_text_exec(w: i32, h: i32) -> (r: String)
    ensures
        r@ == res_text(w, h),
{
    let mut v = i64_text(w as i64);
    extend_str(&mut v, "x");
    extend_chars(&mut v, &i64_text(h as i64));
    string_of(&v)
}

/// `m` thousandths as a decimal with three places.
pub fn millis_text_exec(m: i32) -> (r: String)
    ensures
        r@ == millis_text(m as int),
{
    let a: u64 = if m < 0 {
        (-(m as i64)) as u64
    } else {
        m as u64
    };
    let mut v: Vec<char> = Vec::new();
    if m < 0 {
        extend_str(&mut v, "-");
    } else {
        extend_str(&mut v, "");
    }
    extend_chars(&mut v, &crate::text::u64_text(a / 1000));
    extend_str(&mut v, ".");
    let f = a % 1000;
    v.push(((f / 100) as u8 + 48u8) as char);
    v.push((((f / 10) % 10) as u8 + 48u8) as char);
    v.push(((f % 10) as u8 + 48u8) as char);
    proof {
        let ghost t = three_digits(f as nat);
        assert(t[0] == crate::text::digit_char((f / 100) as nat));
    }
    assert(v@ =~= millis_text(m as int));
    string_of(&v)
}

/// The output config that reproduces sway's current state of an output.
pub open spec fn config_from_sway_spec(o: SwayOutput, c: OutputConfig) -> bool {
    &&& c.name@ == stable_id_spec(o)
    &&& match current_mode_index(o, o.modes@.len()) {
        Some(i) => {
            &&& c.resolution matches Some(r) && r@ == res_text(o.modes@[i].width, o.modes@[i].height)
            &&& c.refresh matches Some(f) && f@ == millis_text(o.modes@[i].refresh as int)
        },
        None => c.resolution is None && c.refresh is None,
    }
    &&& c.scale matches Some(s) && s@ == o.scale@
    &&& c.transform matches Some(t) && t@ == o.transform@
    &&& c.position == Some(OutputPosition::Absolute { x: o.rect.x, y: o.rect.y })
}

/// An output config from sway's current state: its stable id, its mode,
/// scale and transform, and its coordinates as an absolute position.
pub fn config_from_sway(output: &SwayOutput) -> (r: OutputConfig)
    ensures
        config_from_sway_spec(*output, r),
{
    let mode = output.current_mode();
    let (resolution, refresh) = match mode {
        Some(m) => (Some(res_text_exec(m.width, m.height)), Some(millis_text_exec(m.refresh))),
        None => (None, None),
    };
    OutputConfig {
        name: output.stable_id(),
        resolution,
        refresh,
        scale: Some(output.scale.clone()),
        transform: Some(output.transform.clone()),
        position: Some(OutputPosition::Absolute { x: output.rect.x, y: output.rect.y }),
    }
}

// ── Copies ──────────────────────────────────────────────────

pub fn copy_opt_string(s: &Option<String>) -> (r: Option<String>)
    ensures
        r == *s,
{
    match s {
        Some(t) => Some(t.clone()),
        None => None,
    }
}

pub fn copy_position(p: &OutputPosition) -> (r: OutputPosition)
    ensures
        r == *p,
{
    match p {
        OutputPosition::Absolute { x, y } => OutputPosition::Absolute { x: *x, y: *y },
        OutputPosition::LeftOf(n) => OutputPosition::LeftOf(n.clone()),
        OutputPosition::RightOf(n) => OutputPosition::RightOf(n.clone()),
        OutputPosition::Above(n) => OutputPosition::Above(n.clone()),
        OutputPosition::Below(n) => OutputPosition::Below(n.clone()),
    }
}

/// A copy of an output config.
pub fn copy_config(c: &OutputConfig) -> (r: OutputConfig)
    ensures
        r == *c,
{
    OutputConfig {
        name: c.name.clone(),
        resolution: copy_opt_string(&c.resolution),
        refresh: copy_opt_string(&c.refresh),
        scale: copy_opt_string(&c.scale),
        transform: copy_opt_string(&c.transform),
        position: match &c.position {
            Some(p) => Some(copy_position(p)),
            None => None,
        },
    }
}

// ── Inferring relative positions ────────────────────────────

/// The first output among the first `k` whose stable id is `name`.
pub open spec fn find_output_upto(outputs: Seq<SwayOutput>, name: Seq<char>, k: nat) -> Option<int>
    decreases k,
{
    if k == 0 {
        None
    } else {
        match find_output_upto(outputs, name, (k - 1) as nat) {
            Some(i) => Some(i),
            None => if stable_id_spec(outputs[k - 1]) == name {
                Some(k - 1)
            } else {
                None
            },
        }
    }
}

/// The output whose stable id is a config's name (the first one).
pub open spec fn find_output(outputs: Seq<SwayOutput>, name: Seq<char>) -> Option<int> {
    find_output_upto(outputs, name, outputs.len())
}

pub proof fn lemma_find_output_upto(outputs: Seq<SwayOutput>, name: Seq<char>, k: nat)
    requires
        k <= outputs.len(),
    ensures
        find_output_upto(outputs, name, k) matches Some(i) ==> 0 <= i < k && stable_id_spec(
            outputs[i],
        ) == name,
    decreases k,
{
    if k > 0 {
        lemma_find_output_upto(outputs, name, (k - 1) as nat);
    }
}

/// The index of the output whose stable id is `name`, if any.
pub fn find_output_by_config_name(outputs: &[SwayOutput], name: &str) -> (r: Option<usize>)
    ensures
        match r {
            Some(i) => find_output(outputs@, name@) == Some(i as int) && i < outputs@.len(),
            None => find_output(outputs@, name@) is None,
        },
{
    proof {
        lemma_find_output_upto(outputs@, name@, outputs@.len());
    }
    let nv = chars_of(name);
    let mut k: usize = 0;
    while k < outputs.len()
        invariant
            k <= outputs@.len(),
            nv@ == name@,
            find_output_upto(outputs@, name@, k as nat) is None,
        decreases outputs.len() - k,
    {
        let id = outputs[k].stable_id();
        let iv = chars_of(id.as_str());
        if chars_eq(&iv, &nv) {
            let mut j = k + 1;
            while j < outputs.len()
                invariant
                    k < j <= outputs@.len(),
                    find_output_upto(outputs@, name@, j as nat) == Some(k as int),
                decreases outputs.len() - j,
            {
                j += 1;
            }
            return Some(k);
        }
        k += 1;
    }
    None
}

/// The key by which the anchor is chosen: the coordinates of an absolute
/// position, else the largest key.
pub open spec fn anchor_key(c: OutputConfig) -> (int, int) {
    match c.position {
        Some(OutputPosition::Absolute { x, y }) => (x as int, y as int),
        _ => (i32::MAX as int, i32::MAX as int),
    }
}

pub open spec fn key_lt(a: (int, int), b: (int, int)) -> bool {
    a.0 < b.0 || (a.0 == b.0 && a.1 < b.1)
}

/// The first config among the first `k` with the smallest key
/// (`min_by_key`).
pub open spec fn anchor_upto(cs: Seq<OutputConfig>, k: nat) -> int
    decreases k,
{
    if k <= 1 {
        0
    } else {
        let b = anchor_upto(cs, (k - 1) as nat);
        if key_lt(anchor_key(cs[k - 1]), anchor_key(cs[b])) {
            k - 1
        } else {
            b
        }
    }
}

/// The anchor: the leftmost, then topmost, config with an absolute
/// position (the first such, on a tie).
pub open spec fn anchor_index(cs: Seq<OutputConfig>) -> int {
    anchor_upto(cs, cs.len())
}

/// `u32 as i32`: values from 2^31 on wrap to negative.
pub open spec fn wrap_i32(d: int) -> int {
    if d >= 0x8000_0000 {
        d - 0x1_0000_0000
    } else {
        d
    }
}

/// Integer division by two, rounding towards zero.
pub open spec fn half(h: int) -> int {
    if h >= 0 {
        h / 2
    } else {
        -((-h) / 2)
    }
}

pub open spec fn abs(d: int) -> int {
    if d >= 0 {
        d
    } else {
        -d
    }
}

/// The relative position inferred for an output at (`x`, `y`) of size
/// `w` by `h`, from the anchor's rect `ar`: right of it, left of it,
/// above, below, or right of it when nothing else fits.
pub open spec fn inferred_position(x: int, y: int, w: int, h: int, ar: SwayRect, anchor: String) -> OutputPosition {
    let near = wrap_i32(abs(y - ar.y)) <= half(ar.height as int);
    if x >= ar.x + ar.width && near {
        OutputPosition::RightOf(anchor)
    } else if x + w <= ar.x && near {
        OutputPosition::LeftOf(anchor)
    } else if y + h <= ar.y {
        OutputPosition::Above(anchor)
    } else if y >= ar.y + ar.height {
        OutputPosition::Below(anchor)
    } else {
        OutputPosition::RightOf(anchor)
    }
}

/// The width and height of the output that a config names (0 by 0 when
/// none has its name).
pub open spec fn config_size(outputs: Seq<SwayOutput>, name: Seq<char>) -> (int, int) {
    match find_output(outputs, name) {
        Some(k) => (outputs[k].rect.width as int, outputs[k].rect.height as int),
        None => (0, 0),
    }
}

/// Config `i` after inference: when there are two configs or more, the
/// anchor is known to sway, and `i` is another config with an absolute
/// position, that position becomes relative to the anchor.
pub open spec fn inferred_config(cs: Seq<OutputConfig>, outputs: Seq<SwayOutput>, i: int) -> OutputConfig {
    let a = anchor_index(cs);
    let c = cs[i];
    if cs.len() >= 2 && i != a && find_output(outputs, cs[a].name@) is Some {
        match c.position {
            Some(OutputPosition::Absolute { x, y }) => {
                let ar = outputs[find_output(outputs, cs[a].name@)->0].rect;
                let (w, h) = config_size(outputs, c.name@);
                OutputConfig {
                    position: Some(inferred_position(x as int, y as int, w, h, ar, cs[a].name)),
                    ..c
                }
            },
            _ => c,
        }
    } else {
        c
    }
}

fn anchor_exec(cs: &Vec<OutputConfig>) -> (r: usize)
    requires
        cs.len() >= 1,
    ensures
        r as int == anchor_index(cs@),
        r < cs.len(),
{
    let mut best: usize = 0;
    let mut k: usize = 1;
    while k < cs.len()
        invariant
            1 <= k <= cs.len(),
            best as int == anchor_upto(cs@, k as nat),
            best < k,
        decreases cs.len() - k,
    {
        let (kx, ky) = key_exec(&cs[k]);
        let (bx, by) = key_exec(&cs[best]);
        if kx < bx || (kx == bx && ky < by) {
            best = k;
        }
        k += 1;
    }
    best
}

fn key_exec(c: &OutputConfig) -> (r: (i32, i32))
    ensures
        (r.0 as int, r.1 as int) == anchor_key(*c),
{
    match &c.position {
        Some(OutputPosition::Absolute { x, y }) => (*x, *y),
        _ => (i32::MAX, i32::MAX),
    }
}

/// Rewrites the absolute positions of all but the anchor (the leftmost,
/// then topmost, output) as positions relative to it, judged from sway's
/// rects. Nothing changes with fewer than two configs, or when sway does
/// not know the anchor.
pub fn infer_relative_positions(configs: &mut Vec<OutputConfig>, outputs: &[SwayOutput])
    ensures
        final(configs)@.len() == old(configs)@.len(),
        forall|i: int|
            0 <= i < old(configs)@.len() ==> #[trigger] final(configs)@[i] == inferred_config(
                old(configs)@,
                outputs@,
                i,
            ),
{
    let ghost cs = configs@;
    if configs.len() < 2 {
        return;
    }
    let a = anchor_exec(configs);
    let anchor_name = configs[a].name.clone();
    let anchor_out = find_output_by_config_name(outputs, anchor_name.as_str());
    let ar = match anchor_out {
        Some(k) => outputs[k].rect,
        None => {
            return;
        },
    };
    let mut i: usize = 0;
    while i < configs.len()
        invariant
            configs@.len() == cs.len() >= 2,
            a as int == anchor_index(cs),
            anchor_name == cs[a as int].name,
            find_output(outputs@, anchor_name@) is Some,
            ar == outputs@[find_output(outputs@, anchor_name@)->0].rect,
            forall|j: int| 0 <= j < i ==> #[trigger] configs@[j] == inferred_config(cs, outputs@, j),
            forall|j: int| i <= j < cs.len() ==> #[trigger] configs@[j] == cs[j],
        decreases cs.len() - i,
    {
        if i != a {
            match &configs[i].position {
                Some(OutputPosition::Absolute { x, y }) => {
                    let x = *x as i64;
                    let y = *y as i64;
                    let size = find_output_by_config_name(outputs, configs[i].name.as_str());
                    let (w, h): (i64, i64) = match size {
                        Some(k) => (outputs[k].rect.width as i64, outputs[k].rect.height as i64),
                        None => (0, 0),
                    };
                    let d: i64 = if y >= ar.y as i64 {
                        y - ar.y as i64
                    } else {
                        ar.y as i64 - y
                    };
                    let dw: i64 = if d >= 0x8000_0000 {
                        d - 0x1_0000_0000
                    } else {
                        d
                    };
                    let hh = ar.height as i64;
                    let half_h: i64 = if hh >= 0 {
                        hh / 2
                    } else {
                        -((-hh) / 2)
                    };
                    let near = dw <= half_h;
                    let pos = if x >= ar.x as i64 + ar.width as i64 && near {
                        OutputPosition::RightOf(anchor_name.clone())
                    } else if x + w <= ar.x as i64 && near {
                        OutputPosition::LeftOf(anchor_name.clone())
                    } else if y + h <= ar.y as i64 {
                        OutputPosition::Above(anchor_name.clone())
                    } else if y >= ar.y as i64 + ar.height as i64 {
                        OutputPosition::Below(anchor_name.clone())
                    } else {
                        OutputPosition::RightOf(anchor_name.clone())
                    };
                    let old_c = &configs[i];
                    let new_c = OutputConfig {
                        name: old_c.name.clone(),
                        resolution: copy_opt_string(&old_c.resolution),
                        refresh: copy_opt_string(&old_c.refresh),
                        scale: copy_opt_string(&old_c.scale),
                        transform: copy_opt_string(&old_c.transform),
                        position: Some(pos),
                    };
                    assert(new_c == inferred_config(cs, outputs@, i as int));
                    configs.set(i, new_c);
                },
                _ => {},
            }
        }
        i += 1;
    }
}

// ── Resolutions ─────────────────────────────────────────────

/// The text of `r` before its first `x` (all of it when there is none).
pub open spec fn first_piece(r: Seq<char>) -> Seq<char> {
    match find_char(r, 'x') {
        Some(k) => r.take(k),
        None => r,
    }
}

/// The text between the first and the second `x` of `r`, if it has one.
pub open spec fn second_piece(r: Seq<char>) -> Option<Seq<char>> {
    match find_char(r, 'x') {
        Some(k) => Some(first_piece(r.skip(k + 1))),
        None => None,
    }
}

/// The width of a resolution `WxH`, 1920 when it cannot be read.
pub open spec fn res_width(res: Option<String>) -> int {
    match res {
        Some(r) => match parse_i32_spec(first_piece(r@)) {
            Some(v) => v as int,
            None => 1920,
        },
        None => 1920,
    }
}

/// The height of a resolution `WxH`, 1080 when it cannot be read.
pub open spec fn res_height(res: Option<String>) -> int {
    match res {
        Some(r) => match second_piece(r@) {
            Some(p) => match parse_i32_spec(p) {
                Some(v) => v as int,
                None => 1080,
            },
            None => 1080,
        },
        None => 1080,
    }
}

fn first_piece_exec(r: &Vec<char>, from: usize) -> (p: Vec<char>)
    requires
        from <= r.len(),
    ensures
        p@ == first_piece(r@.skip(from as int)),
{
    match crate::text::find_char_from(r, from, 'x') {
        Some(k) => {
            let p = slice_chars(r, from, k);
            assert(p@ == r@.skip(from as int).take(k - from));
            p
        },
        None => {
            let p = slice_chars(r, from, r.len());
            assert(p@ == r@.skip(from as int));
            p
        },
    }
}

/// The width of a resolution, 1920 when it cannot be read.
pub fn parse_res_width(res: &Option<String>) -> (r: i32)
    ensures
        r as int == res_width(*res),
{
    match res {
        Some(t) => {
            let v = chars_of(t.as_str());
            let p = first_piece_exec(&v, 0);
            assert(v@.skip(0) == v@);
            match parse_i32(&p) {
                Some(w) => w,
                None => 1920,
            }
        },
        None => 1920,
    }
}

/// The height of a resolution, 1080 when it cannot be read.
pub fn parse_res_height(res: &Option<String>) -> (r: i32)
    ensures
        r as int == res_height(*res),
{
    match res {
        Some(t) => {
            let v = chars_of(t.as_str());
            match crate::text::find_char_from(&v, 0, 'x') {
                Some(k) => {
                    assert(v@.skip(0) == v@);
                    let p = first_piece_exec(&v, k + 1);
                    proof {
                        crate::text::lemma_find_char_bound(v@, 'x');
                        assert(v@.skip(k + 1) == v@.skip(k + 1));
                    }
                    match parse_i32(&p) {
                        Some(h) => h,
                        None => 1080,
                    }
                },
                None => {
                    assert(v@.skip(0) == v@);
                    1080
                },
            }
        },
        None => 1080,
    }
}

// ── Resolving relative positions ────────────────────────────

/// Whether some config has an absolute position.
pub open spec fn has_absolute(cs: Seq<OutputConfig>) -> bool {
    exists|j: int| 0 <= j < cs.len() && (#[trigger] cs[j]).position matches Some(
        OutputPosition::Absolute { .. },
    )
}

/// Where config `i` is placed without looking at other configs: its
/// absolute position; the origin for the first config when none has an
/// absolute position.
pub open spec fn base_pos(cs: Seq<OutputConfig>, i: int) -> Option<(int, int)> {
    match cs[i].position {
        Some(OutputPosition::Absolute { x, y }) => Some((x as int, y as int)),
        _ => if i == 0 && !has_absolute(cs) {
            Some((0, 0))
        } else {
            None
        },
    }
}

/// The first config named `name` among the first `k`.
pub open spec fn named_upto(cs: Seq<OutputConfig>, name: Seq<char>, k: nat) -> Option<int>
    decreases k,
{
    if k == 0 {
        None
    } else {
        match named_upto(cs, name, (k - 1) as nat) {
            Some(j) => Some(j),
            None => if cs[k - 1].name@ == name {
                Some(k - 1)
            } else {
                None
            },
        }
    }
}

pub proof fn lemma_named_upto(cs: Seq<OutputConfig>, name: Seq<char>, k: nat)
    requires
        k <= cs.len(),
    ensures
        named_upto(cs, name, k) matches Some(j) ==> 0 <= j < k && cs[j].name@ == name,
    decreases k,
{
    if k > 0 {
        lemma_named_upto(cs, name, (k - 1) as nat);
    }
}

/// The config that config `i` is placed relative to (the first config
/// with the target's name).
pub open spec fn target_index(cs: Seq<OutputConfig>, i: int) -> Option<int> {
    match cs[i].position {
        Some(p) => match target_name_spec(p) {
            Some(n) => named_upto(cs, n, cs.len()),
            None => None,
        },
        None => None,
    }
}

/// The position of config `i` placed next to config `t` at `p`: right of
/// it by `t`'s width, left of it by `i`'s width, below it by `t`'s height,
/// above it by `i`'s height.
pub open spec fn placed(cs: Seq<OutputConfig>, i: int, t: int, p: (int, int)) -> (int, int) {
    match cs[i].position {
        Some(OutputPosition::RightOf(_)) => (p.0 + res_width(cs[t].resolution), p.1),
        Some(OutputPosition::LeftOf(_)) => (p.0 - res_width(cs[i].resolution), p.1),
        Some(OutputPosition::Below(_)) => (p.0, p.1 + res_height(cs[t].resolution)),
        Some(OutputPosition::Above(_)) => (p.0, p.1 - res_height(cs[i].resolution)),
        _ => p,
    }
}

/// The position of config `i` found by following relative positions at
/// most `d` times.
pub open spec fn chain_pos(cs: Seq<OutputConfig>, i: int, d: nat) -> Option<(int, int)>
    decreases d,
{
    if base_pos(cs, i) is Some {
        base_pos(cs, i)
    } else if d == 0 {
        None
    } else {
        match target_index(cs, i) {
            Some(t) => match chain_pos(cs, t, (d - 1) as nat) {
                Some(p) => Some(placed(cs, i, t, p)),
                None => None,
            },
            None => None,
        }
    }
}

/// The absolute position of config `i`: `None` when its chain of relative
/// positions reaches no placed output (a missing target, or a cycle).
pub open spec fn resolved_pos(cs: Seq<OutputConfig>, i: int) -> Option<(int, int)> {
    chain_pos(cs, i, cs.len())
}

pub proof fn lemma_target_index(cs: Seq<OutputConfig>, i: int)
    ensures
        target_index(cs, i) matches Some(t) ==> 0 <= t < cs.len(),
{
    match cs[i].position {
        Some(p) => match target_name_spec(p) {
            Some(n) => lemma_named_upto(cs, n, cs.len()),
            None => {},
        },
        None => {},
    }
}

/// Following relative positions further changes nothing once a position
/// is found.
pub proof fn lemma_chain_mono(cs: Seq<OutputConfig>, i: int, d: nat, e: nat)
    requires
        d <= e,
        chain_pos(cs, i, d) is Some,
    ensures
        chain_pos(cs, i, e) == chain_pos(cs, i, d),
    decreases d,
{
    if base_pos(cs, i) is None {
        let t = target_index(cs, i)->0;
        lemma_chain_mono(cs, t, (d - 1) as nat, (e - 1) as nat);
    }
}

/// The `k`-th config on the chain of relative positions from `i`.
pub open spec fn node(cs: Seq<OutputConfig>, i: int, k: nat) -> int
    decreases k,
{
    if k == 0 {
        i
    } else {
        match target_index(cs, i) {
            Some(t) => node(cs, t, (k - 1) as nat),
            None => i,
        }
    }
}

/// The chain from `i` goes on for `k` steps: none of its first `k`
/// configs is placed by itself, and each has a target.
pub open spec fn chain_goes_on(cs: Seq<OutputConfig>, i: int, k: nat) -> bool {
    forall|j: nat|
        j < k ==> base_pos(cs, #[trigger] node(cs, i, j)) is None && target_index(
            cs,
            node(cs, i, j),
        ) is Some
}

proof fn lemma_chain_prefix(cs: Seq<OutputConfig>, i: int, k: nat, e: nat)
    requires
        chain_goes_on(cs, i, k),
    ensures
        (chain_pos(cs, i, k + e) is Some) == (chain_pos(cs, node(cs, i, k), e) is Some),
    decreases k,
{
    if k > 0 {
        assert(base_pos(cs, node(cs, i, 0)) is None);
        let t = target_index(cs, i)->0;
        assert forall|j: nat| j < (k - 1) as nat implies base_pos(cs, #[trigger] node(cs, t, j))
            is None && target_index(cs, node(cs, t, j)) is Some by {
            assert(node(cs, i, j + 1) == node(cs, t, j));
            assert(base_pos(cs, node(cs, i, j + 1)) is None);
        }
        lemma_chain_prefix(cs, t, (k - 1) as nat, e);
        assert(node(cs, i, k) == node(cs, t, (k - 1) as nat));
        assert((k + e) as nat - 1 == (k - 1 + e) as nat);
    }
}

proof fn lemma_least_depth(cs: Seq<OutputConfig>, i: int, d: nat) -> (m: nat)
    requires
        chain_pos(cs, i, d) is Some,
    ensures
        m <= d,
        chain_pos(cs, i, m) is Some,
        forall|m2: nat| m2 < m ==> chain_pos(cs, i, m2) is None,
    decreases d,
{
    if d > 0 && chain_pos(cs, i, (d - 1) as nat) is Some {
        lemma_least_depth(cs, i, (d - 1) as nat)
    } else {
        assert forall|m2: nat| m2 < d implies chain_pos(cs, i, m2) is None by {
            if chain_pos(cs, i, m2) is Some {
                lemma_chain_mono(cs, i, m2, (d - 1) as nat);
            }
        }
        d
    }
}

proof fn lemma_node_range(cs: Seq<OutputConfig>, i: int, k: nat)
    requires
        0 <= i < cs.len(),
    ensures
        0 <= node(cs, i, k) < cs.len(),
    decreases k,
{
    if k > 0 {
        lemma_target_index(cs, i);
        if let Some(t) = target_index(cs, i) {
            lemma_node_range(cs, t, (k - 1) as nat);
        }
    }
}

/// A chain that reaches a placed config does so within as many steps as
/// there are configs (it visits no config twice).
pub proof fn lemma_chain_bounded(cs: Seq<OutputConfig>, i: int, d: nat)
    requires
        0 <= i < cs.len(),
        chain_pos(cs, i, d) is Some,
    ensures
        chain_pos(cs, i, cs.len()) == chain_pos(cs, i, d),
{
    let m = lemma_least_depth(cs, i, d);
    // the chain goes on up to m
    assert forall|k: nat| k <= m implies chain_goes_on(cs, i, k) by {
        lemma_goes_on_upto(cs, i, m, k);
    }
    // the first m + 1 configs of the chain are distinct
    let s = Seq::new((m + 1) as nat, |k: int| node(cs, i, k as nat));
    assert forall|a: int, b: int| 0 <= a < b < s.len() implies s[a] != s[b] by {
        if s[a] == s[b] {
            let (a, b) = (a as nat, b as nat);
            lemma_chain_prefix(cs, i, b, (m - b) as nat);
            assert(chain_pos(cs, node(cs, i, b), (m - b) as nat) is Some);
            lemma_chain_prefix(cs, i, a, (m - b) as nat);
            assert(chain_pos(cs, i, (a + m - b) as nat) is Some);
        }
    }
    assert(s.no_duplicates());
    s.unique_seq_to_set();
    assert forall|x: int| s.to_set().contains(x) implies vstd::set_lib::set_int_range(0, cs.len() as int).contains(x) by {
        let k = choose|k: int| 0 <= k < s.len() && s[k] == x;
        lemma_node_range(cs, i, k as nat);
    }
    vstd::set_lib::lemma_int_range(0, cs.len() as int);
    vstd::set_lib::lemma_len_subset(s.to_set(), vstd::set_lib::set_int_range(0, cs.len() as int));
    assert(m < cs.len());
    lemma_chain_mono(cs, i, m, cs.len());
    lemma_chain_mono(cs, i, m, d);
}

proof fn lemma_goes_on_upto(cs: Seq<OutputConfig>, i: int, m: nat, k: nat)
    requires
        k <= m,
        chain_pos(cs, i, m) is Some,
        forall|m2: nat| m2 < m ==> chain_pos(cs, i, m2) is None,
    ensures
        chain_goes_on(cs, i, k),
    decreases k,
{
    if k > 0 {
        lemma_goes_on_upto(cs, i, m, (k - 1) as nat);
        let j = (k - 1) as nat;
        let n = node(cs, i, j);
        lemma_chain_prefix(cs, i, j, (m - j) as nat);
        if base_pos(cs, n) is Some {
            lemma_chain_prefix(cs, i, j, 0);
            assert(chain_pos(cs, i, j) is Some);
        }
        if target_index(cs, n) is None {
            assert(chain_pos(cs, n, (m - j) as nat) is None);
        }
        assert forall|jj: nat| jj < k implies base_pos(cs, #[trigger] node(cs, i, jj)) is None
            && target_index(cs, node(cs, i, jj)) is Some by {
            if jj < j {
            }
        }
    }
}

/// An output with an absolute position stays where it is.
pub proof fn lemma_resolved_absolute(cs: Seq<OutputConfig>, i: int, x: i32, y: i32)
    requires
        0 <= i < cs.len(),
        cs[i].position == Some(OutputPosition::Absolute { x, y }),
    ensures
        resolved_pos(cs, i) == Some((x as int, y as int)),
{
}

/// An output placed relative to another that is resolved lands next to
/// it: right of it by its width, left of it by its own width, below it by
/// its height, above it by its own height.
pub proof fn lemma_resolved_relative(cs: Seq<OutputConfig>, i: int, t: int)
    requires
        0 <= i < cs.len(),
        base_pos(cs, i) is None,
        target_index(cs, i) == Some(t),
        resolved_pos(cs, t) is Some,
    ensures
        resolved_pos(cs, i) == Some(placed(cs, i, t, resolved_pos(cs, t)->0)),
{
    lemma_target_index(cs, i);
    assert(chain_pos(cs, i, (cs.len() + 1) as nat) == Some(
        placed(cs, i, t, chain_pos(cs, t, cs.len())->0),
    ));
    lemma_chain_bounded(cs, i, (cs.len() + 1) as nat);
}

/// Where a relative placement lands, given the resolved position (`tx`,
/// `ty`) of its target `t`: right of the target by the target's width,
/// below it by the target's height, left of it by the output's own width,
/// above it by the output's own height.
pub proof fn lemma_placement_offsets(cs: Seq<OutputConfig>, i: int, t: int, tx: int, ty: int)
    requires
        0 <= i < cs.len(),
        base_pos(cs, i) is None,
        target_index(cs, i) == Some(t),
        resolved_pos(cs, t) == Some((tx, ty)),
    ensures
        cs[i].position matches Some(OutputPosition::RightOf(_)) ==> resolved_pos(cs, i) == Some(
            (tx + res_width(cs[t].resolution), ty),
        ),
        cs[i].position matches Some(OutputPosition::Below(_)) ==> resolved_pos(cs, i) == Some(
            (tx, ty + res_height(cs[t].resolution)),
        ),
        cs[i].position matches Some(OutputPosition::LeftOf(_)) ==> resolved_pos(cs, i) == Some(
            (tx - res_width(cs[i].resolution), ty),
        ),
        cs[i].position matches Some(OutputPosition::Above(_)) ==> resolved_pos(cs, i) == Some(
            (tx, ty - res_height(cs[i].resolution)),
        ),
{
    lemma_resolved_relative(cs, i, t);
}

/// Outputs stacked vertically do not overlap: an output placed below
/// another starts exactly where the other one's height ends, and one
/// placed above ends exactly where the other one starts.
pub proof fn lemma_vertical_stacking(cs: Seq<OutputConfig>, i: int, t: int)
    requires
        0 <= i < cs.len(),
        base_pos(cs, i) is None,
        target_index(cs, i) == Some(t),
        resolved_pos(cs, t) is Some,
    ensures
        ({
            let pi = resolved_pos(cs, i)->0;
            let pt = resolved_pos(cs, t)->0;
            &&& cs[i].position matches Some(OutputPosition::Below(_)) ==> pi.1 - pt.1 == res_height(
                cs[t].resolution,
            )
            &&& cs[i].position matches Some(OutputPosition::Above(_)) ==> pt.1 - pi.1 == res_height(
                cs[i].resolution,
            )
            &&& cs[i].position matches Some(OutputPosition::RightOf(_)) ==> pi.0 - pt.0 == res_width(
                cs[t].resolution,
            )
            &&& cs[i].position matches Some(OutputPosition::LeftOf(_)) ==> pt.0 - pi.0 == res_width(
                cs[i].resolution,
            )
        }),
{
    let (tx, ty) = resolved_pos(cs, t)->0;
    lemma_placement_offsets(cs, i, t, tx, ty);
}

proof fn lemma_chain_magnitude(cs: Seq<OutputConfig>, i: int, d: nat)
    requires
        chain_pos(cs, i, d) is Some,
    ensures
        abs(chain_pos(cs, i, d).unwrap().0) <= (d + 1) * 0x8000_0000,
        abs(chain_pos(cs, i, d).unwrap().1) <= (d + 1) * 0x8000_0000,
    decreases d,
{
    if base_pos(cs, i) is None {
        let t = target_index(cs, i)->0;
        lemma_chain_magnitude(cs, t, (d - 1) as nat);
    }
}

/// Whether configs `i` and `j` are named alike.
fn names_equal(a: &String, b: &str) -> (r: bool)
    ensures
        r == (a@ == b@),
{
    let av = chars_of(a.as_str());
    let bv = chars_of(b);
    chars_eq(&av, &bv)
}

fn named_index(cs: &[OutputConfig], name: &str) -> (r: Option<usize>)
    ensures
        match r {
            Some(j) => named_upto(cs@, name@, cs@.len()) == Some(j as int) && j < cs.len(),
            None => named_upto(cs@, name@, cs@.len()) is None,
        },
{
    let mut k: usize = 0;
    while k < cs.len()
        invariant
            k <= cs@.len(),
            named_upto(cs@, name@, k as nat) is None,
        decreases cs.len() - k,
    {
        if names_equal(&cs[k].name, name) {
            let mut j = k + 1;
            while j < cs.len()
                invariant
                    k < j <= cs@.len(),
                    named_upto(cs@, name@, j as nat) == Some(k as int),
                decreases cs.len() - j,
            {
                j += 1;
            }
            return Some(k);
        }
        k += 1;
    }
    None
}

pub open spec fn matches_resolved(cs: Seq<OutputConfig>, i: int, p: Option<(i64, i64)>) -> bool {
    match p {
        Some((x, y)) => resolved_pos(cs, i) == Some((x as int, y as int)),
        None => resolved_pos(cs, i) is None,
    }
}

/// The absolute position of every config: absolute positions as they
/// are, relative positions resolved along their chain of targets, the
/// first config at the origin when none is absolute; `None` for a config
/// whose chain reaches no placed config.
pub fn resolve_positions(configs: &[OutputConfig]) -> (r: Vec<Option<(i64, i64)>>)
    requires
        configs@.len() < 0x8000_0000,
    ensures
        r@.len() == configs@.len(),
        forall|i: int| 0 <= i < r@.len() ==> matches_resolved(configs@, i, #[trigger] r@[i]),
{
    let ghost cs = configs@;
    let n = configs.len();
    let mut positions: Vec<Option<(i64, i64)>> = Vec::new();
    let mut any_abs = false;
    let mut i: usize = 0;
    while i < n
        invariant
            i <= n == cs.len(),
            positions@.len() == i,
            any_abs == exists|j: int| 0 <= j < i && (#[trigger] cs[j]).position matches Some(
                OutputPosition::Absolute { .. },
            ),
            forall|j: int|
                0 <= j < i ==> #[trigger] positions@[j] == match cs[j].position {
                    Some(OutputPosition::Absolute { x, y }) => Some((x as i64, y as i64)),
                    _ => None,
                },
        decreases n - i,
    {
        match &configs[i].position {
            Some(OutputPosition::Absolute { x, y }) => {
                positions.push(Some((*x as i64, *y as i64)));
                any_abs = true;
            },
            _ => positions.push(None),
        }
        i += 1;
    }
    if !any_abs && n > 0 {
        positions.set(0, Some((0, 0)));
    }
    assert(any_abs == has_absolute(cs));
    // after the first pass, exactly the configs placed by themselves are placed
    assert forall|j: int| 0 <= j < n implies (#[trigger] positions@[j] matches Some(v) ==> resolved_pos(
        cs,
        j,
    ) == Some((v.0 as int, v.1 as int))) && (chain_pos(cs, j, 0) is Some ==> positions@[j] is Some) by {
        if positions@[j] is Some {
            assert(chain_pos(cs, j, 0) is Some);
            lemma_chain_bounded(cs, j, 0);
        }
    }
    let mut pass: usize = 0;
    while pass < n
        invariant
            pass <= n == cs.len() < 0x8000_0000,
            cs == configs@,
            positions@.len() == n,
            forall|j: int|
                0 <= j < n ==> (#[trigger] positions@[j] matches Some(v) ==> resolved_pos(cs, j)
                    == Some((v.0 as int, v.1 as int))),
            forall|j: int|
                0 <= j < n ==> (chain_pos(cs, j, pass as nat) is Some ==> (
                #[trigger] positions@[j]) is Some),
        decreases n - pass,
    {
        let mut i: usize = 0;
        while i < n
            invariant
                i <= n == cs.len() < 0x8000_0000,
                pass < n,
                cs == configs@,
                positions@.len() == n,
                forall|j: int|
                    0 <= j < n ==> (#[trigger] positions@[j] matches Some(v) ==> resolved_pos(
                        cs,
                        j,
                    ) == Some((v.0 as int, v.1 as int))),
                forall|j: int|
                    0 <= j < n ==> (chain_pos(cs, j, pass as nat) is Some ==> (
                    #[trigger] positions@[j]) is Some),
                forall|j: int|
                    0 <= j < i ==> (chain_pos(cs, j, (pass + 1) as nat) is Some ==> (
                    #[trigger] positions@[j]) is Some),
            decreases n - i,
        {
            if positions[i].is_none() {
                proof {
                    if base_pos(cs, i as int) is Some {
                        assert(chain_pos(cs, i as int, 0) is Some);
                        lemma_chain_mono(cs, i as int, 0, pass as nat);
                    }
                    lemma_target_index(cs, i as int);
                }
                match &configs[i].position {
                    Some(pos) => {
                        match pos.target_name() {
                            Some(tn) => {
                                match named_index(configs, tn) {
                                    Some(ti) => {
                                        assert(target_index(cs, i as int) == Some(ti as int));
                                        match positions[ti] {
                                            Some((tx, ty)) => {
                                                proof {
                                                    assert(resolved_pos(cs, ti as int) == Some(
                                                        (tx as int, ty as int),
                                                    ));
                                                    lemma_chain_magnitude(cs, ti as int, n as nat);
                                                }
                                                let resolved: (i64, i64) = match pos {
                                                    OutputPosition::RightOf(_) => {
                                                        let tw = parse_res_width(
                                                            &configs[ti].resolution,
                                                        );
                                                        (tx + tw as i64, ty)
                                                    },
                                                    OutputPosition::LeftOf(_) => {
                                                        let w = parse_res_width(
                                                            &configs[i].resolution,
                                                        );
                                                        (tx - w as i64, ty)
                                                    },
                                                    OutputPosition::Below(_) => {
                                                        let th = parse_res_height(
                                                            &configs[ti].resolution,
                                                        );
                                                        (tx, ty + th as i64)
                                                    },
                                                    OutputPosition::Above(_) => {
                                                        let h = parse_res_height(
                                                            &configs[i].resolution,
                                                        );
                                                        (tx, ty - h as i64)
                                                    },
                                                    OutputPosition::Absolute { .. } => (tx, ty),
                                                };
                                                proof {
                                                    assert(chain_pos(cs, i as int, (n + 1) as nat)
                                                        == Some((resolved.0 as int, resolved.1 as int)));
                                                    lemma_chain_bounded(cs, i as int, (n + 1) as nat);
                                                }
                                                positions.set(i, Some(resolved));
                                            },
                                            None => {},
                                        }
                                    },
                                    None => {},
                                }
                            },
                            None => {},
                        }
                    },
                    None => {},
                }
            }
            proof {
                assert forall|j: int| 0 <= j < n && chain_pos(cs, j, pass as nat) is Some implies (
                    #[trigger] positions@[j]) is Some by {}
            }
            i += 1;
        }
        pass += 1;
    }
    assert forall|i: int| 0 <= i < positions@.len() implies matches_resolved(
        cs,
        i,
        #[trigger] positions@[i],
    ) by {
        if positions@[i] is None {
            assert(chain_pos(cs, i, n as nat) is None);
        }
    }
    positions
}

// ── Sway config generation ─────────────────────────────────

pub open spec fn mode_line(c: OutputConfig) -> Seq<char> {
    match c.resolution {
        Some(r) => match c.refresh {
            Some(f) => "    mode "@ + r@ + "@"@ + f@ + "Hz\n"@,
            None => "    mode "@ + r@ + "\n"@,
        },
        None => seq![],
    }
}

pub open spec fn scale_line(c: OutputConfig) -> Seq<char> {
    match c.scale {
        Some(s) => "    scale "@ + s@ + "\n"@,
        None => seq![],
    }
}

pub open spec fn transform_line(c: OutputConfig) -> Seq<char> {
    match c.transform {
        Some(t) => if t@ != "normal"@ {
            "    transform "@ + t@ + "\n"@
        } else {
            seq![]
        },
        None => seq![],
    }
}

pub open spec fn position_line(p: Option<(int, int)>) -> Seq<char> {
    match p {
        Some((x, y)) => "    position "@ + int_text(x) + " "@ + int_text(y) + "\n"@,
        None => seq![],
    }
}

/// The `output` block of a config placed at `p`.
pub open spec fn output_block(c: OutputConfig, p: Option<(int, int)>) -> Seq<char> {
    "output \""@ + c.name@ + "\" {\n"@ + mode_line(c) + scale_line(c) + transform_line(c)
        + position_line(p) + "}\n\n"@
}

pub open spec fn output_blocks(cs: Seq<OutputConfig>, k: nat) -> Seq<char>
    decreases k,
{
    if k == 0 || k > cs.len() {
        seq![]
    } else {
        output_blocks(cs, (k - 1) as nat) + output_block(cs[k - 1], resolved_pos(cs, k - 1))
    }
}

/// The text of the generated `outputs.conf`.
pub open spec fn outputs_text(cs: Seq<OutputConfig>) -> Seq<char> {
    "# ── Oblong outputs — auto-generated, do not edit by hand ──\n\n"@ + output_blocks(
        cs,
        cs.len(),
    )
}

fn push_mode_line(out: &mut Vec<char>, c: &OutputConfig)
    ensures
        final(out)@ == old(out)@ + mode_line(*c),
{
    match &c.resolution {
        Some(r) => match &c.refresh {
            Some(f) => {
                extend_str(out, "    mode ");
                extend_str(out, r.as_str());
                extend_str(out, "@");
                extend_str(out, f.as_str());
                extend_str(out, "Hz\n");
            },
            None => {
                extend_str(out, "    mode ");
                extend_str(out, r.as_str());
                extend_str(out, "\n");
            },
        },
        None => {
            assert(old(out)@ + mode_line(*c) == old(out)@);
        },
    }
}

fn push_scale_line(out: &mut Vec<char>, c: &OutputConfig)
    ensures
        final(out)@ == old(out)@ + scale_line(*c),
{
    match &c.scale {
        Some(sc) => {
            extend_str(out, "    scale ");
            extend_str(out, sc.as_str());
            extend_str(out, "\n");
        },
        None => {
            assert(old(out)@ + scale_line(*c) == old(out)@);
        },
    }
}

fn push_transform_line(out: &mut Vec<char>, c: &OutputConfig)
    ensures
        final(out)@ == old(out)@ + transform_line(*c),
{
    match &c.transform {
        Some(t) => {
            let tv = chars_of(t.as_str());
            if !crate::text::eq_str(&tv, "normal") {
                extend_str(out, "    transform ");
                extend_str(out, t.as_str());
                extend_str(out, "\n");
            } else {
                assert(old(out)@ + transform_line(*c) == old(out)@);
            }
        },
        None => {
            assert(old(out)@ + transform_line(*c) == old(out)@);
        },
    }
}

fn push_position_line(out: &mut Vec<char>, p: Option<(i64, i64)>)
    ensures
        final(out)@ == old(out)@ + position_line(
            match p {
                Some((x, y)) => Some((x as int, y as int)),
                None => None,
            },
        ),
{
    match p {
        Some((x, y)) => {
            extend_str(out, "    position ");
            extend_chars(out, &i64_text(x));
            extend_str(out, " ");
            extend_chars(out, &i64_text(y));
            extend_str(out, "\n");
        },
        None => {
            assert(old(out)@ + position_line(None) == old(out)@);
        },
    }
}

fn push_output_block(out: &mut Vec<char>, c: &OutputConfig, p: Option<(i64, i64)>)
    ensures
        final(out)@ == old(out)@ + output_block(
            *c,
            match p {
                Some((x, y)) => Some((x as int, y as int)),
                None => None,
            },
        ),
{
    extend_str(out, "output \"");
    extend_str(out, c.name.as_str());
    extend_str(out, "\" {\n");
    push_mode_line(out, c);
    push_scale_line(out, c);
    push_transform_line(out, c);
    push_position_line(out, p);
    extend_str(out, "}\n\n");
}

/// The generated `outputs.conf`: one block per config, relative
/// positions resolved to coordinates.
pub fn outputs_conf(configs: &[OutputConfig]) -> (r: String)
    requires
        configs@.len() < 0x8000_0000,
    ensures
        r@ == outputs_text(configs@),
{
    let resolved = resolve_positions(configs);
    let mut out = chars_of("# ── Oblong outputs — auto-generated, do not edit by hand ──\n\n");
    let ghost head = out@;
    let mut i: usize = 0;
    while i < configs.len()
        invariant
            i <= configs@.len() == resolved@.len(),
            forall|j: int|
                0 <= j < resolved@.len() ==> matches_resolved(configs@, j, #[trigger] resolved@[j]),
            head == "# ── Oblong outputs — auto-generated, do not edit by hand ──\n\n"@,
            out@ == head + output_blocks(configs@, i as nat),
        decreases configs.len() - i,
    {
        assert(matches_resolved(configs@, i as int, resolved@[i as int]));
        push_output_block(&mut out, &configs[i], resolved[i]);
        i += 1;
    }
    string_of(&out)
}

/// The settings file of the displays: `outputs.json` in oblong's
/// settings directory.
pub fn outputs_config_path(home: &str) -> (r: String)
    ensures
        r@ == crate::config::path_join(
            crate::config::path_join(crate::config::path_join(home@, ".config"@), "oblong"@),
            "outputs.json"@,
        ),
{
    let d = crate::config::config_dir(home);
    crate::config::join_path(d.as_str(), "outputs.json")
}

// ── Available modes ─────────────────────────────────────────

/// `s` without repetitions, each kept where it first occurs.
pub open spec fn first_occurrences(s: Seq<Seq<char>>) -> Seq<Seq<char>>
    decreases s.len(),
{
    if s.len() == 0 {
        seq![]
    } else {
        let u = first_occurrences(s.drop_last());
        if u.contains(s.last()) {
            u
        } else {
            u.push(s.last())
        }
    }
}

/// The resolutions of an output's modes, each once, in order of first
/// occurrence.
pub open spec fn unique_modes_spec(o: SwayOutput) -> Seq<Seq<char>> {
    first_occurrences(o.modes@.map_values(|m: SwayMode| res_text(m.width, m.height)))
}

/// The resolutions that an output offers, each once.
pub fn unique_modes(output: &SwayOutput) -> (r: Vec<String>)
    ensures
        r@.map_values(|s: String| s@) == unique_modes_spec(*output),
{
    let ghost all = output.modes@.map_values(|m: SwayMode| res_text(m.width, m.height));
    let mut seen: Vec<String> = Vec::new();
    let mut i: usize = 0;
    while i < output.modes.len()
        invariant
            i <= output.modes@.len(),
            all == output.modes@.map_values(|m: SwayMode| res_text(m.width, m.height)),
            seen@.map_values(|s: String| s@) == first_occurrences(all.take(i as int)),
        decreases output.modes.len() - i,
    {
        let m = &output.modes[i];
        let res = res_text_exec(m.width, m.height);
        let ghost sv = seen@.map_values(|s: String| s@);
        assert(all.take(i + 1).drop_last() == all.take(i as int));
        assert(all.take(i + 1).last() == res@);
        let mut found = false;
        let mut k: usize = 0;
        while k < seen.len()
            invariant
                k <= seen@.len(),
                sv == seen@.map_values(|s: String| s@),
                found == exists|j: int| 0 <= j < k && sv[j] == res@,
            decreases seen.len() - k,
        {
            assert(sv[k as int] == seen@[k as int]@);
            if seen[k] == res {
                found = true;
            }
            k += 1;
        }
        assert(found == sv.contains(res@));
        if !found {
            seen.push(res);
            assert(seen@.map_values(|s: String| s@) == sv.push(res@));
        }
        i += 1;
    }
    assert(all.take(output.modes@.len() as int) == all);
    seen
}

/// Whether a sequence is in descending order.
pub open spec fn descending(s: Seq<i32>) -> bool {
    forall|a: int, b: int| 0 <= a < b < s.len() ==> s[a] >= s[b]
}

/// The width and height named by a resolution text: exactly two pieces
/// around an `x`, each read as a number (0 when it is none).
pub open spec fn wanted_size(resolution: Seq<char>) -> Option<(i32, i32)> {
    let parts = crate::text::split_char(resolution, 'x');
    if parts.len() != 2 {
        None
    } else {
        Some(
            (
                match parse_i32_spec(parts[0]) {
                    Some(v) => v,
                    None => 0,
                },
                match parse_i32_spec(parts[1]) {
                    Some(v) => v,
                    None => 0,
                },
            ),
        )
    }
}

/// The refresh rates (millihertz) of the modes of size `w` by `h`.
pub open spec fn refreshes_of(modes: Seq<SwayMode>, w: i32, h: i32) -> Seq<i32> {
    modes.filter(|m: SwayMode| m.width == w && m.height == h).map_values(|m: SwayMode| m.refresh)
}

/// The refresh rates, in millihertz, that an output offers at a
/// resolution `WxH`, highest first (with repetitions); none when the
/// resolution is not of that form.
pub fn mode_refreshes_for_resolution(output: &SwayOutput, resolution: &str) -> (r: Vec<i32>)
    ensures
        match wanted_size(resolution@) {
            Some((w, h)) => descending(r@) && r@.to_multiset() == refreshes_of(output.modes@, w, h).to_multiset(),
            None => r@.len() == 0,
        },
{
    broadcast use vstd::seq_lib::group_to_multiset_ensures;
    let rv = chars_of(resolution);
    let parts = crate::text::split_char_exec(&rv, 'x');
    let ghost pv = parts@.map_values(|p: Vec<char>| p@);
    let mut r: Vec<i32> = Vec::new();
    if parts.len() != 2 {
        return r;
    }
    assert(pv[0] == parts@[0]@ && pv[1] == parts@[1]@);
    let w = match parse_i32(&parts[0]) {
        Some(v) => v,
        None => 0,
    };
    let h = match parse_i32(&parts[1]) {
        Some(v) => v,
        None => 0,
    };
    let ghost pred = |m: SwayMode| m.width == w && m.height == h;
    let ghost modes = output.modes@;
    let mut i: usize = 0;
    while i < output.modes.len()
        invariant
            i <= modes.len(),
            modes == output.modes@,
            pred == (|m: SwayMode| m.width == w && m.height == h),
            descending(r@),
            r@.to_multiset() == modes.take(i as int).filter(pred).map_values(
                |m: SwayMode| m.refresh,
            ).to_multiset(),
        decreases modes.len() - i,
    {
        proof {
            reveal_with_fuel(Seq::<_>::filter, 1);
            assert(modes.take(i + 1).drop_last() == modes.take(i as int));
        }
        let m = output.modes[i];
        if m.width == w && m.height == h {
            let v = m.refresh;
            let mut p: usize = 0;
            while p < r.len() && r[p] >= v
                invariant
                    p <= r@.len(),
                    forall|j: int| 0 <= j < p ==> r@[j] >= v,
                decreases r.len() - p,
            {
                p += 1;
            }
            let ghost before = r@;
            r.insert(p, v);
            proof {
                assert(r@ == before.insert(p as int, v));
                assert forall|a: int, b: int| 0 <= a < b < r@.len() implies r@[a] >= r@[b] by {
                    if p < before.len() {
                        assert(before[p as int] < v);
                    }
                }
                let f0 = modes.take(i as int).filter(pred);
                assert(modes.take(i + 1).filter(pred) == f0.push(m));
                assert(f0.push(m).map_values(|m: SwayMode| m.refresh) == f0.map_values(
                    |m: SwayMode| m.refresh,
                ).push(v));
            }
        } else {
            proof {
                assert(modes.take(i + 1).filter(pred) == modes.take(i as int).filter(pred));
            }
        }
        i += 1;
    }
    assert(modes.take(modes.len() as int) == modes);
    r
}

} // verus!
