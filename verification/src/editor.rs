//! The settings editor: its state, what each user action does to it, and
//! what the outcome of a save, a reload, a conflict fix or a refresh from
//! sway leaves in its status line. The window that shows the state and the
//! work on files and processes stand outside; they hand the results back
//! here.
use vstd::prelude::*;
use crate::appearance::{
    color_at, rgb_hex, rgb_hex_spec, style_named, toggle_selection, AppearanceConfig, BorderStyle,
    ColorField, ColorTarget,
};
use crate::config::{bindings_view, conflicting_keys, detect_conflicts, groups_view, Binding, BindingGroup};
use crate::defaults::DefaultsConfig;
use crate::outputs::{
    config_from_sway, config_from_sway_spec, descending, inferred_config, infer_relative_positions,
    millis_text, millis_text_exec, mode_refreshes_for_resolution, refreshes_of, relation_index_spec,
    stable_id_spec, target_name_spec, wanted_size, OutputConfig, OutputPosition, SwayOutput,
};
use crate::text::{
    chars_of, extend_chars, extend_str, join, lowercase, nat_text, parse_u32, parse_u32_spec,
    starts_with, starts_with_str, string_of, u64_text,
};

verus! {

// ── State ───────────────────────────────────────────────────

/// The pages of the editor.
#[derive(Debug, Clone, Copy, PartialEq, Eq, Structural)]
pub enum Tab {
    Shortcuts,
    Displays,
    Appearance,
    Behavior,
}

/// Everything the editor shows and edits.
#[derive(Debug)]
pub struct Editor {
    pub tab: Tab,
    /// Shortcuts
    pub groups: Vec<BindingGroup>,
    /// Displays: what sway reports, and the settings kept for each output
    pub sway_outputs: Vec<SwayOutput>,
    pub output_configs: Vec<OutputConfig>,
    /// Appearance
    pub appearance: AppearanceConfig,
    pub system_fonts: Vec<String>,
    pub editing_color: Option<(ColorTarget, ColorField)>,
    /// Behavior
    pub defaults: DefaultsConfig,
    /// The line that reports the outcome of the last action
    pub status: String,
}

impl Editor {
    /// An editor on the given settings: the shortcuts page, no color
    /// selected, an empty status line.
    pub fn new(
        groups: Vec<BindingGroup>,
        sway_outputs: Vec<SwayOutput>,
        output_configs: Vec<OutputConfig>,
        appearance: AppearanceConfig,
        system_fonts: Vec<String>,
        defaults: DefaultsConfig,
    ) -> (r: Editor)
        ensures
            r.tab == Tab::Shortcuts,
            r.groups == groups,
            r.sway_outputs == sway_outputs,
            r.output_configs == output_configs,
            r.appearance == appearance,
            r.system_fonts == system_fonts,
            r.editing_color is None,
            r.defaults == defaults,
            r.status@ == Seq::<char>::empty(),
    {
        Editor {
            tab: Tab::Shortcuts,
            groups,
            sway_outputs,
            output_configs,
            appearance,
            system_fonts,
            editing_color: None,
            defaults,
            status: String::new(),
        }
    }

    /// Every binding of every group, in order.
    pub fn all_bindings(&self) -> (r: Vec<&Binding>)
        ensures
            r@.map_values(|b: &Binding| b@) == all_bindings_view(self.groups@),
    {
        let mut r: Vec<&Binding> = Vec::new();
        let mut i: usize = 0;
        let ghost gs = self.groups@;
        while i < self.groups.len()
            invariant
                i <= gs.len(),
                gs == self.groups@,
                r@.map_values(|b: &Binding| b@) == all_bindings_view(gs.take(i as int)),
            decreases gs.len() - i,
        {
            let g = &self.groups[i];
            let ghost before = r@.map_values(|b: &Binding| b@);
            let mut k: usize = 0;
            while k < g.bindings.len()
                invariant
                    k <= g.bindings@.len(),
                    r@.map_values(|b: &Binding| b@) == before + bindings_view(g.bindings@).take(k as int),
                decreases g.bindings@.len() - k,
            {
                let ghost rb = r@;
                r.push(&g.bindings[k]);
                proof {
                    assert(r@.map_values(|b: &Binding| b@) =~= rb.map_values(|b: &Binding| b@).push(
                        g.bindings@[k as int]@,
                    ));
                    assert(bindings_view(g.bindings@).take(k + 1) == bindings_view(g.bindings@).take(
                        k as int,
                    ).push(g.bindings@[k as int]@));
                    assert(r@.map_values(|b: &Binding| b@) =~= before + bindings_view(g.bindings@).take(
                        k + 1,
                    ));
                }
                k += 1;
            }
            proof {
                assert(bindings_view(g.bindings@).take(g.bindings@.len() as int) == bindings_view(
                    g.bindings@,
                ));
                lemma_all_bindings_step(gs, i as int);
            }
            i += 1;
        }
        assert(gs.take(gs.len() as int) == gs);
        r
    }

    /// The names of the output settings other than `exclude`, in order.
    pub fn other_output_names(&self, exclude: &str) -> (r: Vec<String>)
        ensures
            r@.map_values(|s: String| s@) == other_names(self.output_configs@, exclude@),
    {
        let ghost cs = self.output_configs@;
        let ghost pred = |n: Seq<char>| n != exclude@;
        let ev = chars_of(exclude);
        let mut r: Vec<String> = Vec::new();
        let mut i: usize = 0;
        while i < self.output_configs.len()
            invariant
                i <= cs.len(),
                cs == self.output_configs@,
                ev@ == exclude@,
                pred == (|n: Seq<char>| n != exclude@),
                r@.map_values(|s: String| s@) == config_names(cs.take(i as int)).filter(pred),
            decreases cs.len() - i,
        {
            let name = &self.output_configs[i].name;
            proof {
                reveal(Seq::filter);
                assert(config_names(cs.take(i + 1)) == config_names(cs.take(i as int)).push(name@));
                assert(config_names(cs.take(i + 1)).drop_last() =~= config_names(cs.take(i as int)));
            }
            if !crate::text::chars_eq(&chars_of(name.as_str()), &ev) {
                let copy = string_of(&chars_of(name.as_str()));
                r.push(copy);
                proof {
                    assert(r@.map_values(|s: String| s@) =~= config_names(cs.take(i as int)).filter(
                        pred,
                    ).push(name@));
                }
            }
            i += 1;
        }
        assert(cs.take(cs.len() as int) == cs);
        r
    }

    /// The color at (`target`, `field`).
    pub fn get_color_hex(&self, target: ColorTarget, field: ColorField) -> (r: &String)
        ensures
            r@ == color_at(self.appearance.colors, target, field),
    {
        self.appearance.colors.get_color_hex(target, field)
    }
}

/// The bindings of all groups, one after another.
pub open spec fn all_bindings_view(gs: Seq<BindingGroup>) -> Seq<(Seq<char>, Seq<char>)> {
    gs.map_values(|g: BindingGroup| bindings_view(g.bindings@)).flatten()
}

proof fn lemma_all_bindings_step(gs: Seq<BindingGroup>, i: int)
    requires
        0 <= i < gs.len(),
    ensures
        all_bindings_view(gs.take(i + 1)) == all_bindings_view(gs.take(i)) + bindings_view(
            gs[i].bindings@,
        ),
{
    let f = |g: BindingGroup| bindings_view(g.bindings@);
    assert(gs.take(i + 1).map_values(f) =~= gs.take(i).map_values(f).push(f(gs[i])));
    gs.take(i).map_values(f).lemma_flatten_push(f(gs[i]));
}

/// The names of output settings, in order.
pub open spec fn config_names(cs: Seq<OutputConfig>) -> Seq<Seq<char>> {
    cs.map_values(|c: OutputConfig| c.name@)
}

/// The names of the output settings other than `exclude`.
pub open spec fn other_names(cs: Seq<OutputConfig>, exclude: Seq<char>) -> Seq<Seq<char>> {
    config_names(cs).filter(|n: Seq<char>| n != exclude)
}

// ── Default shortcuts ───────────────────────────────────────

/// The keys of the default snapping shortcuts, with the snap direction
/// each runs.
pub open spec fn default_snap_keys() -> Seq<(Seq<char>, Seq<char>)> {
    seq![
        ("$mod+Left"@, "left"@),
        ("$mod+Right"@, "right"@),
        ("$mod+Up"@, "up"@),
        ("$mod+Down"@, "down"@),
        ("$mod+m"@, "maximize"@),
        ("$mod+c"@, "center"@),
        ("$mod+BackSpace"@, "restore"@),
        ("$mod+u"@, "topleft"@),
        ("$mod+i"@, "topright"@),
        ("$mod+Shift+u"@, "bottomleft"@),
        ("$mod+Shift+i"@, "bottomright"@),
    ]
}

/// The command that runs `bin snap direction`.
pub open spec fn snap_command(bin: Seq<char>, direction: Seq<char>) -> Seq<char> {
    "exec "@ + bin + " snap "@ + direction
}

fn snap_binding(keys: &str, bin: &str, direction: &str) -> (r: Binding)
    ensures
        r@ == (keys@, snap_command(bin@, direction@)),
{
    let mut v = chars_of("exec ");
    extend_str(&mut v, bin);
    extend_str(&mut v, " snap ");
    extend_str(&mut v, direction);
    Binding { keys: String::from_str(keys), command: string_of(&v) }
}

/// The shortcuts offered before any are saved: the snapping commands of
/// the program `bin`.
pub fn default_snap_bindings(bin: &str) -> (r: Vec<Binding>)
    ensures
        r@.len() == default_snap_keys().len(),
        forall|i: int|
            0 <= i < r@.len() ==> #[trigger] r@[i]@ == (
                default_snap_keys()[i].0,
                snap_command(bin@, default_snap_keys()[i].1),
            ),
{
    let mut r: Vec<Binding> = Vec::new();
    r.push(snap_binding("$mod+Left", bin, "left"));
    r.push(snap_binding("$mod+Right", bin, "right"));
    r.push(snap_binding("$mod+Up", bin, "up"));
    r.push(snap_binding("$mod+Down", bin, "down"));
    r.push(snap_binding("$mod+m", bin, "maximize"));
    r.push(snap_binding("$mod+c", bin, "center"));
    r.push(snap_binding("$mod+BackSpace", bin, "restore"));
    r.push(snap_binding("$mod+u", bin, "topleft"));
    r.push(snap_binding("$mod+i", bin, "topright"));
    r.push(snap_binding("$mod+Shift+u", bin, "bottomleft"));
    r.push(snap_binding("$mod+Shift+i", bin, "bottomright"));
    r
}

// ── Actions ─────────────────────────────────────────────────

/// What the user did.
#[derive(Debug, Clone)]
pub enum Message {
    SwitchTab(Tab),
    // Shortcuts
    KeysChanged(usize, usize, String),
    SaveShortcuts,
    SaveAndReloadShortcuts,
    FixConflicts,
    // Displays
    OutputResolution(usize, String),
    OutputPosition(usize, String),
    OutputPositionTarget(usize, String),
    SaveDisplays,
    SaveAndReloadDisplays,
    RefreshOutputs,
    // Appearance
    AppFontFamily(String),
    AppFontSize(String),
    AppFontSizeStep(i32),
    AppGapsInner(String),
    AppGapsInnerStep(i32),
    AppGapsOuter(String),
    AppGapsOuterStep(i32),
    AppBorderWidth(String),
    AppBorderWidthStep(i32),
    AppBorderStyle(String),
    AppColor(ColorTarget, ColorField, String),
    AppColorSelect(ColorTarget, ColorField),
    AppColorSlider(u8, u8, u8),
    SaveAppearance,
    SaveAndReloadAppearance,
    // Behavior
    DefaultsFocusActivation(String),
    DefaultsFocusFollowsMouse(String),
    DefaultsPopupFullscreen(String),
    DefaultsAutoBackAndForth(bool),
    DefaultsMouseWarping(String),
    SaveDefaults,
    SaveAndReloadDefaults,
    // Shared
    Quit,
}

/// The work outside the editor that an action asks for.
#[derive(Debug, Clone, Copy, PartialEq, Eq, Structural)]
pub enum Effect {
    Nothing,
    /// Write the settings of a page, then reload sway if `reload`.
    Save { page: Tab, reload: bool },
    /// Comment out the main config's bindings of managed keys.
    FixConflicts,
    /// Ask sway for its outputs again.
    RefreshOutputs,
    /// Close the window.
    Quit,
}

/// `v` read as an `i32`, as `as` reads it.
pub open spec fn as_i32(v: u32) -> int {
    if v <= i32::MAX {
        v as int
    } else {
        v - 0x1_0000_0000
    }
}

/// A spinner step on `v` stays within `i32`.
pub open spec fn step_fits(v: u32, delta: i32) -> bool {
    i32::MIN <= as_i32(v) + delta <= i32::MAX
}

/// `v` moved by `delta` (read as an `i32`), and at least `min`.
pub open spec fn stepped(v: u32, delta: i32, min: int) -> int {
    if as_i32(v) + delta < min {
        min
    } else {
        as_i32(v) + delta
    }
}

fn step_value(v: u32, delta: i32, min: i32) -> (r: u32)
    requires
        step_fits(v, delta),
        0 <= min,
    ensures
        r == stepped(v, delta, min as int),
{
    let w: i64 = if v <= 2147483647 {
        v as i64
    } else {
        v as i64 - 4294967296
    };
    let t: i64 = w + delta as i64;
    if t < min as i64 {
        min as u32
    } else {
        t as u32
    }
}

/// An action would overflow a spinner's `i32` arithmetic.
pub open spec fn step_overflows(e: Editor, m: Message) -> bool {
    match m {
        Message::AppFontSizeStep(d) => !step_fits(e.appearance.font_size, d),
        Message::AppGapsInnerStep(d) => !step_fits(e.appearance.gaps_inner, d),
        Message::AppGapsOuterStep(d) => !step_fits(e.appearance.gaps_outer, d),
        Message::AppBorderWidthStep(d) => !step_fits(e.appearance.border_width, d),
        _ => false,
    }
}

/// The status line is empty.
pub open spec fn cleared(e: Editor) -> bool {
    e.status@ == Seq::<char>::empty()
}

/// The groups' view with the keys of binding `bi` of group `gi` replaced,
/// when there is such a binding.
pub open spec fn keys_changed(
    gs: Seq<(Seq<char>, Seq<(Seq<char>, Seq<char>)>)>,
    gi: int,
    bi: int,
    keys: Seq<char>,
) -> Seq<(Seq<char>, Seq<(Seq<char>, Seq<char>)>)> {
    if 0 <= gi < gs.len() && 0 <= bi < gs[gi].1.len() {
        gs.update(gi, (gs[gi].0, gs[gi].1.update(bi, (keys, gs[gi].1[bi].1))))
    } else {
        gs
    }
}

/// Whether an output is the one a setting is named after: by its stable
/// id, or by its connector name.
pub open spec fn names_output(o: SwayOutput, name: Seq<char>) -> bool {
    stable_id_spec(o) == name || o.name@ == name
}

/// The first output among the first `k` that a setting named `name` is
/// about.
pub open spec fn output_named_upto(outputs: Seq<SwayOutput>, name: Seq<char>, k: nat) -> Option<int>
    decreases k,
{
    if k == 0 {
        None
    } else {
        match output_named_upto(outputs, name, (k - 1) as nat) {
            Some(i) => Some(i),
            None => if names_output(outputs[k - 1], name) {
                Some(k - 1)
            } else {
                None
            },
        }
    }
}

proof fn lemma_output_named_upto(outputs: Seq<SwayOutput>, name: Seq<char>, k: nat)
    requires
        k <= outputs.len(),
    ensures
        output_named_upto(outputs, name, k) matches Some(i) ==> 0 <= i < k,
    decreases k,
{
    if k > 0 {
        lemma_output_named_upto(outputs, name, (k - 1) as nat);
    }
}

proof fn lemma_output_named_stays(outputs: Seq<SwayOutput>, name: Seq<char>, k: nat, m: nat)
    requires
        k <= m,
        output_named_upto(outputs, name, k) is Some,
    ensures
        output_named_upto(outputs, name, m) == output_named_upto(outputs, name, k),
    decreases m - k,
{
    if k < m {
        lemma_output_named_stays(outputs, name, k, (m - 1) as nat);
    }
}

/// The output that a setting named `name` is about: the first whose
/// stable id or connector name is `name`.
pub fn output_named(outputs: &Vec<SwayOutput>, name: &str) -> (r: Option<usize>)
    ensures
        match r {
            Some(i) => output_named_upto(outputs@, name@, outputs@.len()) == Some(i as int) && i
                < outputs@.len(),
            None => output_named_upto(outputs@, name@, outputs@.len()) is None,
        },
{
    proof {
        lemma_output_named_upto(outputs@, name@, outputs@.len());
    }
    let nv = chars_of(name);
    let mut k: usize = 0;
    while k < outputs.len()
        invariant
            k <= outputs@.len(),
            nv@ == name@,
            output_named_upto(outputs@, name@, k as nat) is None,
        decreases outputs@.len() - k,
    {
        let id = chars_of(outputs[k].stable_id().as_str());
        if crate::text::chars_eq(&id, &nv) || crate::text::chars_eq(
            &chars_of(outputs[k].name.as_str()),
            &nv,
        ) {
            proof {
                assert(output_named_upto(outputs@, name@, (k + 1) as nat) == Some(k as int));
                lemma_output_named_stays(outputs@, name@, (k + 1) as nat, outputs@.len());
            }
            return Some(k);
        }
        k += 1;
    }
    None
}

/// A refresh rate that is the highest of `rs`.
pub open spec fn is_highest(rs: Seq<i32>, x: i32) -> bool {
    rs.contains(x) && forall|y: i32| rs.contains(y) ==> y <= x
}

/// The highest refresh rate (millihertz) that an output offers at a
/// resolution `WxH`; none when it offers none there.
pub open spec fn highest_refresh(o: SwayOutput, resolution: Seq<char>) -> Option<i32> {
    match wanted_size(resolution) {
        Some((w, h)) => {
            let rs = refreshes_of(o.modes@, w, h);
            if rs.len() == 0 {
                None
            } else {
                Some(choose|x: i32| is_highest(rs, x))
            }
        },
        None => None,
    }
}

/// A text's view, if there is one.
pub open spec fn opt_view(s: Option<String>) -> Option<Seq<char>> {
    match s {
        Some(t) => Some(t@),
        None => None,
    }
}

/// The refresh rate of setting `c` once its resolution is set to
/// `resolution`: the highest that its output offers there, or unchanged
/// when sway reports no such output.
pub open spec fn refresh_for(outputs: Seq<SwayOutput>, c: OutputConfig, resolution: Seq<char>) -> Option<
    Seq<char>,
> {
    match output_named_upto(outputs, c.name@, outputs.len()) {
        Some(j) => match highest_refresh(outputs[j], resolution) {
            Some(x) => Some(millis_text(x as int)),
            None => None,
        },
        None => opt_view(c.refresh),
    }
}

/// The relation number of a relation's name (as `relation_index`
/// numbers them); 4 for any other name.
pub open spec fn relation_number(relation: Seq<char>) -> usize {
    if relation == "Left of"@ {
        0
    } else if relation == "Right of"@ {
        1
    } else if relation == "Above"@ {
        2
    } else if relation == "Below"@ {
        3
    } else {
        4
    }
}

/// The output that setting `idx` is placed against when its relation
/// changes: the one it is placed against now, else the first other
/// setting, else none (an empty name).
pub open spec fn placement_target(cs: Seq<OutputConfig>, idx: int) -> Seq<char> {
    let others = other_names(cs, cs[idx].name@);
    let fallback = if others.len() > 0 {
        others[0]
    } else {
        Seq::<char>::empty()
    };
    match cs[idx].position {
        Some(p) => match target_name_spec(p) {
            Some(t) => t,
            None => fallback,
        },
        None => fallback,
    }
}

/// The relation number of setting `c`'s position; "Right of" when it
/// has none.
pub open spec fn current_relation(c: OutputConfig) -> usize {
    match c.position {
        Some(p) => relation_index_spec(p),
        None => 1,
    }
}

/// The relative position with relation number `index` to `target`.
pub open spec fn relative_position(index: usize, target: String) -> OutputPosition {
    if index == 0 {
        OutputPosition::LeftOf(target)
    } else if index == 1 {
        OutputPosition::RightOf(target)
    } else if index == 2 {
        OutputPosition::Above(target)
    } else {
        OutputPosition::Below(target)
    }
}

/// `b` is `a` with the color at (`t`, `f`) set to `v`.
pub open spec fn color_set(
    a: crate::appearance::WindowColors,
    b: crate::appearance::WindowColors,
    t: ColorTarget,
    f: ColorField,
    v: Seq<char>,
) -> bool {
    &&& color_at(b, t, f) == v
    &&& forall|t2: ColorTarget, f2: ColorField|
        (t2, f2) != (t, f) ==> color_at(b, t2, f2) == color_at(a, t2, f2)
}

/// Only setting `idx` changed, and in it only its position, which is now
/// `p`.
pub open spec fn only_position(a: Seq<OutputConfig>, b: Seq<OutputConfig>, idx: int, p: OutputPosition) -> bool {
    &&& b.len() == a.len()
    &&& forall|j: int| 0 <= j < a.len() && j != idx ==> b[j] == a[j]
    &&& b[idx] == (OutputConfig { position: Some(p), ..a[idx] })
}

/// The new appearance after a number was typed into a field.
pub open spec fn typed_number(v: Seq<char>, old_value: u32) -> u32 {
    match parse_u32_spec(v) {
        Some(n) => n,
        None => old_value,
    }
}

/// What an action does: `n` is the editor after action `m` on `o`, and
/// `e` the outside work that it asks for.
pub open spec fn update_spec(o: Editor, m: Message, n: Editor, e: Effect) -> bool {
    let a = o.appearance;
    let d = o.defaults;
    let cs = o.output_configs@;
    match m {
        Message::SwitchTab(t) => e == Effect::Nothing && n == (Editor { tab: t, status: n.status, ..o })
            && cleared(n),
        Message::KeysChanged(gi, bi, k) => {
            &&& e == Effect::Nothing
            &&& n == (Editor { groups: n.groups, status: n.status, ..o })
            &&& groups_view(n.groups@) == keys_changed(groups_view(o.groups@), gi as int, bi as int, k@)
            &&& cleared(n)
        },
        Message::SaveShortcuts => e == (Effect::Save { page: Tab::Shortcuts, reload: false }) && n == o,
        Message::SaveAndReloadShortcuts => e == (Effect::Save { page: Tab::Shortcuts, reload: true })
            && n == o,
        Message::FixConflicts => e == Effect::FixConflicts && n == o,
        Message::OutputResolution(idx, res) => {
            &&& e == Effect::Nothing
            &&& cleared(n)
            &&& if idx < cs.len() {
                &&& n == (Editor { output_configs: n.output_configs, status: n.status, ..o })
                &&& n.output_configs@.len() == cs.len()
                &&& forall|j: int| 0 <= j < cs.len() && j != idx ==> n.output_configs@[j] == cs[j]
                &&& n.output_configs@[idx as int] == (OutputConfig {
                    resolution: Some(res),
                    refresh: n.output_configs@[idx as int].refresh,
                    ..cs[idx as int]
                })
                &&& opt_view(n.output_configs@[idx as int].refresh) == refresh_for(
                    o.sway_outputs@,
                    cs[idx as int],
                    res@,
                )
            } else {
                n == (Editor { status: n.status, ..o })
            }
        },
        Message::OutputPosition(idx, rel) => {
            &&& e == Effect::Nothing
            &&& if idx < cs.len() && relation_number(rel@) >= 4 {
                n == o
            } else {
                &&& cleared(n)
                &&& if idx < cs.len() {
                    &&& n == (Editor { output_configs: n.output_configs, status: n.status, ..o })
                    &&& n.output_configs@.len() == cs.len()
                    &&& forall|j: int| 0 <= j < cs.len() && j != idx ==> n.output_configs@[j] == cs[j]
                    &&& n.output_configs@[idx as int] == (OutputConfig {
                        position: n.output_configs@[idx as int].position,
                        ..cs[idx as int]
                    })
                    &&& n.output_configs@[idx as int].position matches Some(p)
                    &&& relation_index_spec(p) == relation_number(rel@)
                    &&& target_name_spec(p) == Some(placement_target(cs, idx as int))
                } else {
                    n == (Editor { status: n.status, ..o })
                }
            }
        },
        Message::OutputPositionTarget(idx, target) => {
            &&& e == Effect::Nothing
            &&& if idx < cs.len() && current_relation(cs[idx as int]) >= 4 {
                n == o
            } else {
                &&& cleared(n)
                &&& if idx < cs.len() {
                    &&& n == (Editor { output_configs: n.output_configs, status: n.status, ..o })
                    &&& only_position(
                        cs,
                        n.output_configs@,
                        idx as int,
                        relative_position(current_relation(cs[idx as int]), target),
                    )
                } else {
                    n == (Editor { status: n.status, ..o })
                }
            }
        },
        Message::SaveDisplays => e == (Effect::Save { page: Tab::Displays, reload: false }) && n == o,
        Message::SaveAndReloadDisplays => e == (Effect::Save { page: Tab::Displays, reload: true })
            && n == o,
        Message::RefreshOutputs => e == Effect::RefreshOutputs && n == o,
        Message::AppFontFamily(f) => e == Effect::Nothing && n == (Editor {
            appearance: AppearanceConfig { font_family: f, ..a },
            status: n.status,
            ..o
        }) && cleared(n),
        Message::AppFontSize(v) => e == Effect::Nothing && n == (Editor {
            appearance: AppearanceConfig { font_size: typed_number(v@, a.font_size), ..a },
            status: n.status,
            ..o
        }) && cleared(n),
        Message::AppFontSizeStep(dl) => e == Effect::Nothing && n == (Editor {
            appearance: AppearanceConfig { font_size: stepped(a.font_size, dl, 1) as u32, ..a },
            status: n.status,
            ..o
        }) && cleared(n),
        Message::AppGapsInner(v) => e == Effect::Nothing && n == (Editor {
            appearance: AppearanceConfig { gaps_inner: typed_number(v@, a.gaps_inner), ..a },
            status: n.status,
            ..o
        }) && cleared(n),
        Message::AppGapsInnerStep(dl) => e == Effect::Nothing && n == (Editor {
            appearance: AppearanceConfig { gaps_inner: stepped(a.gaps_inner, dl, 0) as u32, ..a },
            status: n.status,
            ..o
        }) && cleared(n),
        Message::AppGapsOuter(v) => e == Effect::Nothing && n == (Editor {
            appearance: AppearanceConfig { gaps_outer: typed_number(v@, a.gaps_outer), ..a },
            status: n.status,
            ..o
        }) && cleared(n),
        Message::AppGapsOuterStep(dl) => e == Effect::Nothing && n == (Editor {
            appearance: AppearanceConfig { gaps_outer: stepped(a.gaps_outer, dl, 0) as u32, ..a },
            status: n.status,
            ..o
        }) && cleared(n),
        Message::AppBorderWidth(v) => e == Effect::Nothing && n == (Editor {
            appearance: AppearanceConfig { border_width: typed_number(v@, a.border_width), ..a },
            status: n.status,
            ..o
        }) && cleared(n),
        Message::AppBorderWidthStep(dl) => e == Effect::Nothing && n == (Editor {
            appearance: AppearanceConfig { border_width: stepped(a.border_width, dl, 0) as u32, ..a },
            status: n.status,
            ..o
        }) && cleared(n),
        Message::AppBorderStyle(v) => e == Effect::Nothing && n == (Editor {
            appearance: AppearanceConfig {
                border_style: match style_named(lowercase(v@)) {
                    Some(st) => st,
                    None => a.border_style,
                },
                ..a
            },
            status: n.status,
            ..o
        }) && cleared(n),
        Message::AppColor(t, f, v) => {
            &&& e == Effect::Nothing
            &&& n == (Editor { appearance: n.appearance, status: n.status, ..o })
            &&& n.appearance == (AppearanceConfig { colors: n.appearance.colors, ..a })
            &&& color_set(a.colors, n.appearance.colors, t, f, v@)
            &&& cleared(n)
        },
        Message::AppColorSelect(t, f) => e == Effect::Nothing && n == (Editor {
            editing_color: if o.editing_color == Some((t, f)) {
                None
            } else {
                Some((t, f))
            },
            ..o
        }),
        Message::AppColorSlider(r, g, b) => {
            &&& e == Effect::Nothing
            &&& n == (Editor { appearance: n.appearance, status: n.status, ..o })
            &&& cleared(n)
            &&& match o.editing_color {
                Some((t, f)) => n.appearance == (AppearanceConfig { colors: n.appearance.colors, ..a })
                    && color_set(a.colors, n.appearance.colors, t, f, rgb_hex_spec(r, g, b)),
                None => n.appearance == a,
            }
        },
        Message::SaveAppearance => e == (Effect::Save { page: Tab::Appearance, reload: false }) && n
            == o,
        Message::SaveAndReloadAppearance => e == (Effect::Save { page: Tab::Appearance, reload: true })
            && n == o,
        Message::DefaultsFocusActivation(v) => e == Effect::Nothing && n == (Editor {
            defaults: DefaultsConfig { focus_on_window_activation: v, ..d },
            status: n.status,
            ..o
        }) && cleared(n),
        Message::DefaultsFocusFollowsMouse(v) => e == Effect::Nothing && n == (Editor {
            defaults: DefaultsConfig { focus_follows_mouse: v, ..d },
            status: n.status,
            ..o
        }) && cleared(n),
        Message::DefaultsPopupFullscreen(v) => e == Effect::Nothing && n == (Editor {
            defaults: DefaultsConfig { popup_during_fullscreen: v, ..d },
            status: n.status,
            ..o
        }) && cleared(n),
        Message::DefaultsAutoBackAndForth(v) => e == Effect::Nothing && n == (Editor {
            defaults: DefaultsConfig { workspace_auto_back_and_forth: v, ..d },
            status: n.status,
            ..o
        }) && cleared(n),
        Message::DefaultsMouseWarping(v) => e == Effect::Nothing && n == (Editor {
            defaults: DefaultsConfig { mouse_warping: v, ..d },
            status: n.status,
            ..o
        }) && cleared(n),
        Message::SaveDefaults => e == (Effect::Save { page: Tab::Behavior, reload: false }) && n == o,
        Message::SaveAndReloadDefaults => e == (Effect::Save { page: Tab::Behavior, reload: true }) && n
            == o,
        Message::Quit => e == Effect::Quit && n == o,
    }
}

/// The highest of a descending list that holds the same rates as `rs`.
proof fn lemma_first_is_highest(r: Seq<i32>, rs: Seq<i32>)
    requires
        descending(r),
        r.to_multiset() == rs.to_multiset(),
        r.len() > 0,
    ensures
        rs.len() > 0,
        is_highest(rs, r[0]),
        (choose|x: i32| is_highest(rs, x)) == r[0],
{
    broadcast use vstd::seq_lib::group_to_multiset_ensures;

    assert(r.to_multiset().count(r[0]) > 0);
    assert(rs.contains(r[0]));
    assert forall|y: i32| rs.contains(y) implies y <= r[0] by {
        assert(rs.to_multiset().count(y) > 0);
        assert(r.contains(y));
        let k = choose|k: int| 0 <= k < r.len() && r[k] == y;
        if k > 0 {
            assert(r[0] >= r[k]);
        }
    }
    assert(is_highest(rs, r[0]));
    let x = choose|x: i32| is_highest(rs, x);
    assert(is_highest(rs, x));
    assert(x <= r[0] && r[0] <= x);
}

/// The refresh rate text to use for setting `idx` at `resolution`, when
/// sway reports its output.
fn highest_refresh_text(o: &SwayOutput, resolution: &String) -> (r: Option<String>)
    ensures
        opt_view(r) == (match highest_refresh(*o, resolution@) {
            Some(x) => Some(millis_text(x as int)),
            None => None,
        }),
{
    let rates = mode_refreshes_for_resolution(o, resolution.as_str());
    if rates.len() > 0 {
        proof {
            let (w, h) = wanted_size(resolution@)->0;
            lemma_first_is_highest(rates@, refreshes_of(o.modes@, w, h));
        }
        Some(millis_text_exec(rates[0]))
    } else {
        proof {
            broadcast use vstd::seq_lib::group_to_multiset_ensures;

            if let Some((w, h)) = wanted_size(resolution@) {
                assert(refreshes_of(o.modes@, w, h).to_multiset().len() == 0);
            }
        }
        None
    }
}

impl Editor {
    /// Applies an action: the editor changes as `update_spec` says, and
    /// the result names the outside work that remains to be done.
    pub fn update(&mut self, message: Message) -> (e: Effect)
        requires
            !step_overflows(*old(self), message),
        ensures
            update_spec(*old(self), message, *final(self), e),
    {
        let ghost o = *self;
        match message {
            Message::SwitchTab(tab) => {
                self.tab = tab;
                self.status = String::new();
            },
            Message::KeysChanged(gi, bi, new_keys) => {
                if gi < self.groups.len() && bi < self.groups[gi].bindings.len() {
                    self.groups[gi].bindings[bi].keys = new_keys;
                    proof {
                        let gv = groups_view(o.groups@);
                        assert(bindings_view(self.groups@[gi as int].bindings@) =~= gv[gi as int].1.update(
                            bi as int,
                            (new_keys@, gv[gi as int].1[bi as int].1),
                        ));
                        assert(groups_view(self.groups@) =~= keys_changed(gv, gi as int, bi as int, new_keys@));
                    }
                } else {
                    proof {
                        if gi < o.groups@.len() {
                            assert(groups_view(o.groups@)[gi as int] == o.groups@[gi as int]@);
                        }
                    }
                }
                self.status = String::new();
            },
            Message::SaveShortcuts => {
                return Effect::Save { page: Tab::Shortcuts, reload: false };
            },
            Message::SaveAndReloadShortcuts => {
                return Effect::Save { page: Tab::Shortcuts, reload: true };
            },
            Message::FixConflicts => {
                return Effect::FixConflicts;
            },
            Message::OutputResolution(idx, res) => {
                if idx < self.output_configs.len() {
                    let found = output_named(&self.sway_outputs, self.output_configs[idx].name.as_str());
                    match found {
                        Some(j) => {
                            let refresh = highest_refresh_text(&self.sway_outputs[j], &res);
                            self.output_configs[idx].refresh = refresh;
                        },
                        None => {},
                    }
                    self.output_configs[idx].resolution = Some(res);
                }
                self.status = String::new();
            },
            Message::OutputPosition(idx, relation) => {
                if idx < self.output_configs.len() {
                    let target = self.placement_target_exec(idx);
                    let new_pos = OutputPosition::with_relation(relation.as_str(), target);
                    proof {
                        reveal_strlit("Left of");
                        reveal_strlit("Right of");
                        reveal_strlit("Above");
                        reveal_strlit("Below");
                    }
                    match new_pos {
                        Some(p) => {
                            self.output_configs[idx].position = Some(p);
                        },
                        None => {
                            return Effect::Nothing;
                        },
                    }
                }
                self.status = String::new();
            },
            Message::OutputPositionTarget(idx, target) => {
                if idx < self.output_configs.len() {
                    let rel_idx: usize = match &self.output_configs[idx].position {
                        Some(p) => p.relation_index(),
                        None => 1,
                    };
                    match OutputPosition::with_relation_index(rel_idx, target) {
                        Some(p) => {
                            self.output_configs[idx].position = Some(p);
                        },
                        None => {
                            return Effect::Nothing;
                        },
                    }
                }
                self.status = String::new();
            },
            Message::SaveDisplays => {
                return Effect::Save { page: Tab::Displays, reload: false };
            },
            Message::SaveAndReloadDisplays => {
                return Effect::Save { page: Tab::Displays, reload: true };
            },
            Message::RefreshOutputs => {
                return Effect::RefreshOutputs;
            },
            Message::AppFontFamily(family) => {
                self.appearance.font_family = family;
                self.status = String::new();
            },
            Message::AppFontSize(val) => {
                match parse_u32(&chars_of(val.as_str())) {
                    Some(v) => {
                        self.appearance.font_size = v;
                    },
                    None => {},
                }
                self.status = String::new();
            },
            Message::AppFontSizeStep(delta) => {
                self.appearance.font_size = step_value(self.appearance.font_size, delta, 1);
                self.status = String::new();
            },
            Message::AppGapsInner(val) => {
                match parse_u32(&chars_of(val.as_str())) {
                    Some(v) => {
                        self.appearance.gaps_inner = v;
                    },
                    None => {},
                }
                self.status = String::new();
            },
            Message::AppGapsInnerStep(delta) => {
                self.appearance.gaps_inner = step_value(self.appearance.gaps_inner, delta, 0);
                self.status = String::new();
            },
            Message::AppGapsOuter(val) => {
                match parse_u32(&chars_of(val.as_str())) {
                    Some(v) => {
                        self.appearance.gaps_outer = v;
                    },
                    None => {},
                }
                self.status = String::new();
            },
            Message::AppGapsOuterStep(delta) => {
                self.appearance.gaps_outer = step_value(self.appearance.gaps_outer, delta, 0);
                self.status = String::new();
            },
            Message::AppBorderWidth(val) => {
                match parse_u32(&chars_of(val.as_str())) {
                    Some(v) => {
                        self.appearance.border_width = v;
                    },
                    None => {},
                }
                self.status = String::new();
            },
            Message::AppBorderWidthStep(delta) => {
                self.appearance.border_width = step_value(self.appearance.border_width, delta, 0);
                self.status = String::new();
            },
            Message::AppBorderStyle(val) => {
                match BorderStyle::from_str(val.as_str()) {
                    Some(style) => {
                        self.appearance.border_style = style;
                    },
                    None => {},
                }
                self.status = String::new();
            },
            Message::AppColor(target, field, val) => {
                self.appearance.colors.set_color(target, field, val);
                self.status = String::new();
            },
            Message::AppColorSelect(target, field) => {
                self.editing_color = toggle_selection(self.editing_color, (target, field));
            },
            Message::AppColorSlider(r, g, b) => {
                let hex = rgb_hex(r, g, b);
                match self.editing_color {
                    Some((target, field)) => {
                        self.appearance.colors.set_color(target, field, hex);
                    },
                    None => {},
                }
                self.status = String::new();
            },
            Message::SaveAppearance => {
                return Effect::Save { page: Tab::Appearance, reload: false };
            },
            Message::SaveAndReloadAppearance => {
                return Effect::Save { page: Tab::Appearance, reload: true };
            },
            Message::DefaultsFocusActivation(val) => {
                self.defaults.focus_on_window_activation = val;
                self.status = String::new();
            },
            Message::DefaultsFocusFollowsMouse(val) => {
                self.defaults.focus_follows_mouse = val;
                self.status = String::new();
            },
            Message::DefaultsPopupFullscreen(val) => {
                self.defaults.popup_during_fullscreen = val;
                self.status = String::new();
            },
            Message::DefaultsAutoBackAndForth(val) => {
                self.defaults.workspace_auto_back_and_forth = val;
                self.status = String::new();
            },
            Message::DefaultsMouseWarping(val) => {
                self.defaults.mouse_warping = val;
                self.status = String::new();
            },
            Message::SaveDefaults => {
                return Effect::Save { page: Tab::Behavior, reload: false };
            },
            Message::SaveAndReloadDefaults => {
                return Effect::Save { page: Tab::Behavior, reload: true };
            },
            Message::Quit => {
                return Effect::Quit;
            },
        }
        Effect::Nothing
    }

    fn placement_target_exec(&self, idx: usize) -> (r: String)
        requires
            idx < self.output_configs@.len(),
        ensures
            r@ == placement_target(self.output_configs@, idx as int),
    {
        let conf = &self.output_configs[idx];
        match &conf.position {
            Some(p) => match p.target_name() {
                Some(t) => {
                    return String::from_str(t);
                },
                None => {},
            },
            None => {},
        }
        let others = self.other_output_names(conf.name.as_str());
        if others.len() > 0 {
            assert(others@[0]@ == other_names(self.output_configs@, conf.name@)[0]);
            string_of(&chars_of(others[0].as_str()))
        } else {
            String::new()
        }
    }
}

// ── Outcomes of the outside work ────────────────────────────

/// The report of a save that left managed keys also bound in the main
/// config.
pub open spec fn conflict_message(keys: Seq<Seq<char>>) -> Seq<char> {
    "Saved, but "@ + nat_text(keys.len()) + " key(s) also bound in main config: "@ + join(keys, ", "@)
        + ". Use 'Fix Conflicts' to resolve."@
}

fn join_strings(parts: &Vec<String>, sep: &str) -> (r: String)
    ensures
        r@ == join(parts@.map_values(|p: String| p@), sep@),
{
    let mut vs: Vec<Vec<char>> = Vec::new();
    let mut i: usize = 0;
    while i < parts.len()
        invariant
            i <= parts@.len(),
            vs@.map_values(|p: Vec<char>| p@) == parts@.take(i as int).map_values(|p: String| p@),
        decreases parts@.len() - i,
    {
        let ghost before = vs@;
        let c = chars_of(parts[i].as_str());
        vs.push(c);
        assert(vs@ == before.push(c));
        assert(vs@.map_values(|p: Vec<char>| p@) =~= before.map_values(|p: Vec<char>| p@).push(parts@[i as int]@));
        assert(parts@.take(i + 1).map_values(|p: String| p@) =~= parts@.take(i as int).map_values(
            |p: String| p@,
        ).push(parts@[i as int]@));
        i += 1;
    }
    assert(parts@.take(parts@.len() as int) == parts@);
    crate::text::join_lines(&vs, sep)
}

/// The outcome of saving the shortcuts once they are written: success
/// when no managed key is also bound in the main config (`conflicts` are
/// the keys that are), else the report of those keys.
pub fn shortcut_save_outcome(conflicts: &Vec<String>) -> (r: Result<(), String>)
    ensures
        conflicts@.len() == 0 ==> r is Ok,
        conflicts@.len() > 0 ==> (r matches Err(e) && e@ == conflict_message(
            conflicts@.map_values(|k: String| k@),
        )),
{
    if conflicts.len() == 0 {
        return Ok(());
    }
    let mut v = chars_of("Saved, but ");
    extend_chars(&mut v, &u64_text(conflicts.len() as u64));
    extend_str(&mut v, " key(s) also bound in main config: ");
    extend_str(&mut v, join_strings(conflicts, ", ").as_str());
    extend_str(&mut v, ". Use 'Fix Conflicts' to resolve.");
    Err(string_of(&v))
}

/// Whether saving page `page` is followed by a reload of sway, and with
/// what words the reload report begins.
pub open spec fn reload_prefix(page: Tab, reload: bool, outcome: Result<(), String>) -> Option<
    Seq<char>,
> {
    if !reload {
        None
    } else {
        match outcome {
            Ok(()) => Some(
                match page {
                    Tab::Shortcuts => "Saved"@,
                    Tab::Displays => "Display config saved"@,
                    Tab::Appearance => "Appearance saved"@,
                    Tab::Behavior => "Behavior saved"@,
                },
            ),
            Err(e) => if page == Tab::Shortcuts && starts_with(e@, "Saved"@) {
                Some(e@)
            } else {
                None
            },
        }
    }
}

/// The status line after saving page `page`, when sway is not reloaded.
pub open spec fn save_status(page: Tab, outcome: Result<(), String>) -> Seq<char> {
    match outcome {
        Ok(()) => match page {
            Tab::Displays => "✓ Display config saved."@,
            Tab::Appearance => "Saved."@,
            _ => "✓ Saved."@,
        },
        Err(e) => if page == Tab::Shortcuts && starts_with(e@, "Saved"@) {
            "⚠ "@ + e@
        } else if page == Tab::Appearance {
            "Error: "@ + e@
        } else {
            "✗ Error: "@ + e@
        },
    }
}

/// The status line after a reload of sway that followed a save.
pub open spec fn reload_status(prefix: Seq<char>, result: Result<(), String>) -> Seq<char> {
    match result {
        Ok(()) => "✓ "@ + prefix + " & sway reloaded."@,
        Err(e) => "✓ "@ + prefix + ", but reload failed: "@ + e@,
    }
}

/// The status line after commenting out conflicting bindings.
pub open spec fn fix_status(result: Result<usize, String>) -> Seq<char> {
    match result {
        Ok(n) => "✓ Commented out "@ + nat_text(n as nat) + " conflicting binding(s)."@,
        Err(e) => "✗ Error: "@ + e@,
    }
}

/// `cs` are the settings made from outputs `os`: each output's current
/// state, with positions made relative to the anchor.
pub open spec fn refreshed_configs(os: Seq<SwayOutput>, cs: Seq<OutputConfig>) -> bool {
    exists|base: Seq<OutputConfig>|
        {
            &&& #[trigger] base.len() == os.len()
            &&& forall|i: int| 0 <= i < os.len() ==> config_from_sway_spec(os[i], #[trigger] base[i])
            &&& cs.len() == os.len()
            &&& forall|i: int| 0 <= i < os.len() ==> #[trigger] cs[i] == inferred_config(base, os, i)
        }
}

fn text_pair(a: &str, b: &str) -> (r: String)
    ensures
        r@ == a@ + b@,
{
    let mut v = chars_of(a);
    extend_str(&mut v, b);
    string_of(&v)
}

proof fn lemma_refreshed(os: Seq<SwayOutput>, base: Seq<OutputConfig>, cs: Seq<OutputConfig>)
    requires
        base.len() == os.len(),
        forall|i: int| 0 <= i < os.len() ==> config_from_sway_spec(os[i], #[trigger] base[i]),
        cs.len() == os.len(),
        forall|i: int| 0 <= i < os.len() ==> #[trigger] cs[i] == inferred_config(base, os, i),
    ensures
        refreshed_configs(os, cs),
{
    assert(base.len() == os.len());
}

fn text_then(a: &str, b: &str, c: &str) -> (r: String)
    ensures
        r@ == a@ + b@ + c@,
{
    let mut v = chars_of(a);
    extend_str(&mut v, b);
    extend_str(&mut v, c);
    string_of(&v)
}

impl Editor {
    /// Takes in the outcome of saving page `page`. The result is the
    /// beginning of the report when sway is now to be reloaded (the
    /// editor is then unchanged); otherwise the status line reports the
    /// save.
    pub fn finish_save(&mut self, page: Tab, reload: bool, outcome: Result<(), String>) -> (r: Option<String>)
        ensures
            match reload_prefix(page, reload, outcome) {
                Some(p) => r matches Some(t) && t@ == p && *final(self) == *old(self),
                None => r is None && *final(self) == (Editor { status: final(self).status, ..*old(self) })
                    && final(self).status@ == save_status(page, outcome),
            },
    {
        proof {
            reveal_strlit("Saved");
        }
        match outcome {
            Ok(()) => {
                if reload {
                    let prefix = match page {
                        Tab::Shortcuts => "Saved",
                        Tab::Displays => "Display config saved",
                        Tab::Appearance => "Appearance saved",
                        Tab::Behavior => "Behavior saved",
                    };
                    return Some(String::from_str(prefix));
                }
                self.status = String::from_str(
                    match page {
                        Tab::Displays => "✓ Display config saved.",
                        Tab::Appearance => "Saved.",
                        _ => "✓ Saved.",
                    },
                );
                None
            },
            Err(e) => {
                let saved_anyway = page == Tab::Shortcuts && starts_with_str(&chars_of(e.as_str()), "Saved");
                if saved_anyway && reload {
                    return Some(e);
                }
                self.status = if saved_anyway {
                    text_pair("⚠ ", e.as_str())
                } else if page == Tab::Appearance {
                    text_pair("Error: ", e.as_str())
                } else {
                    text_pair("✗ Error: ", e.as_str())
                };
                None
            },
        }
    }

    /// Takes in the outcome of reloading sway after a save whose report
    /// begins with `prefix`.
    pub fn finish_reload(&mut self, prefix: &str, result: Result<(), String>)
        ensures
            *final(self) == (Editor { status: final(self).status, ..*old(self) }),
            final(self).status@ == reload_status(prefix@, result),
    {
        self.status = match result {
            Ok(()) => text_then("✓ ", prefix, " & sway reloaded."),
            Err(e) => {
                let mut v = chars_of("✓ ");
                extend_str(&mut v, prefix);
                extend_str(&mut v, ", but reload failed: ");
                extend_str(&mut v, e.as_str());
                string_of(&v)
            },
        };
    }

    /// The keys to comment out of the main config `main_config`: those of
    /// its bindings that are also managed here. When there are none, the
    /// status line says so and there is nothing to do.
    pub fn conflicts_to_fix(&mut self, main_config: &str) -> (r: Option<Vec<String>>)
        ensures
            conflicting_keys(main_config@, all_bindings_view(old(self).groups@)).len() == 0 ==> {
                &&& r is None
                &&& *final(self) == (Editor { status: final(self).status, ..*old(self) })
                &&& final(self).status@ == "No conflicts found."@
            },
            conflicting_keys(main_config@, all_bindings_view(old(self).groups@)).len() > 0 ==> {
                &&& *final(self) == *old(self)
                &&& r matches Some(ks)
                &&& ks@.map_values(|k: String| k@) == conflicting_keys(
                    main_config@,
                    all_bindings_view(old(self).groups@),
                )
            },
    {
        let keys = {
            let all = self.all_bindings();
            detect_conflicts(main_config, all.as_slice())
        };
        if keys.len() == 0 {
            self.status = String::from_str("No conflicts found.");
            None
        } else {
            Some(keys)
        }
    }

    /// Takes in the outcome of commenting out conflicting bindings: how
    /// many were, or why none could be.
    pub fn finish_fix(&mut self, result: Result<usize, String>)
        ensures
            *final(self) == (Editor { status: final(self).status, ..*old(self) }),
            final(self).status@ == fix_status(result),
    {
        self.status = match result {
            Ok(n) => {
                let mut v = chars_of("✓ Commented out ");
                extend_chars(&mut v, &u64_text(n as u64));
                extend_str(&mut v, " conflicting binding(s).");
                string_of(&v)
            },
            Err(e) => text_pair("✗ Error: ", e.as_str()),
        };
    }

    /// Takes in what sway reports of its outputs: on success the output
    /// settings start over from sway's current state.
    pub fn finish_refresh(&mut self, outputs: Result<Vec<SwayOutput>, String>)
        ensures
            match outputs {
                Ok(os) => {
                    &&& *final(self) == (Editor {
                        sway_outputs: os,
                        output_configs: final(self).output_configs,
                        status: final(self).status,
                        ..*old(self)
                    })
                    &&& refreshed_configs(os@, final(self).output_configs@)
                    &&& final(self).status@ == "Refreshed from sway."@
                },
                Err(e) => *final(self) == (Editor { status: final(self).status, ..*old(self) })
                    && final(self).status@ == "Error: "@ + e@,
            },
    {
        match outputs {
            Ok(os) => {
                let mut cfgs: Vec<OutputConfig> = Vec::new();
                let mut i: usize = 0;
                while i < os.len()
                    invariant
                        i <= os@.len(),
                        cfgs@.len() == i,
                        forall|j: int| 0 <= j < i ==> config_from_sway_spec(os@[j], #[trigger] cfgs@[j]),
                    decreases os@.len() - i,
                {
                    cfgs.push(config_from_sway(&os[i]));
                    i += 1;
                }
                let ghost base = cfgs@;
                infer_relative_positions(&mut cfgs, os.as_slice());
                proof {
                    lemma_refreshed(os@, base, cfgs@);
                }
                self.sway_outputs = os;
                self.output_configs = cfgs;
                self.status = String::from_str("Refreshed from sway.");
            },
            Err(e) => {
                self.status = text_pair("Error: ", e.as_str());
            },
        }
    }

    /// Whether a spinner step of `message` would overflow (the caller
    /// must not apply it).
    pub fn step_would_overflow(&self, message: &Message) -> (r: bool)
        ensures
            r == step_overflows(*self, *message),
    {
        let (v, d): (u32, i32) = match message {
            Message::AppFontSizeStep(d) => (self.appearance.font_size, *d),
            Message::AppGapsInnerStep(d) => (self.appearance.gaps_inner, *d),
            Message::AppGapsOuterStep(d) => (self.appearance.gaps_outer, *d),
            Message::AppBorderWidthStep(d) => (self.appearance.border_width, *d),
            _ => {
                return false;
            },
        };
        let w: i64 = if v <= 2147483647 {
            v as i64
        } else {
            v as i64 - 4294967296
        };
        let t: i64 = w + d as i64;
        t < -2147483648 || t > 2147483647
    }
}

// ── Laws ────────────────────────────────────────────────────

/// Clicking the same color swatch twice leaves the editor as it was,
/// when no other swatch was selected before.
pub proof fn lemma_select_twice(
    o: Editor,
    t: ColorTarget,
    f: ColorField,
    n1: Editor,
    e1: Effect,
    n2: Editor,
    e2: Effect,
)
    requires
        o.editing_color is None || o.editing_color == Some((t, f)),
        update_spec(o, Message::AppColorSelect(t, f), n1, e1),
        update_spec(n1, Message::AppColorSelect(t, f), n2, e2),
    ensures
        n2 == o,
        e1 == Effect::Nothing && e2 == Effect::Nothing,
{
}

/// A save, a conflict fix, a refresh or quitting changes nothing in the
/// editor itself: the work is done outside it.
pub proof fn lemma_outside_work_keeps_editor(o: Editor, m: Message, n: Editor, e: Effect)
    requires
        update_spec(o, m, n, e),
        e != Effect::Nothing,
    ensures
        n == o,
{
}

// ── What the pages show ─────────────────────────────────────

/// The relation that the position picker shows for a position: its own,
/// "Right of" for an absolute one, none without a position.
pub open spec fn relation_shown_spec(p: Option<OutputPosition>) -> Option<Seq<char>> {
    match p {
        Some(OutputPosition::LeftOf(_)) => Some("Left of"@),
        Some(OutputPosition::RightOf(_)) => Some("Right of"@),
        Some(OutputPosition::Above(_)) => Some("Above"@),
        Some(OutputPosition::Below(_)) => Some("Below"@),
        Some(OutputPosition::Absolute { .. }) => Some("Right of"@),
        None => None,
    }
}

pub fn relation_shown(p: &Option<OutputPosition>) -> (r: Option<&'static str>)
    ensures
        match r {
            Some(t) => relation_shown_spec(*p) == Some(t@),
            None => relation_shown_spec(*p) is None,
        },
{
    match p {
        Some(OutputPosition::LeftOf(_)) => Some("Left of"),
        Some(OutputPosition::RightOf(_)) => Some("Right of"),
        Some(OutputPosition::Above(_)) => Some("Above"),
        Some(OutputPosition::Below(_)) => Some("Below"),
        Some(OutputPosition::Absolute { .. }) => Some("Right of"),
        None => None,
    }
}

/// The output that the target picker shows for a position: the one it
/// names, else the first of `others`.
pub fn target_shown(p: &Option<OutputPosition>, others: &Vec<String>) -> (r: Option<String>)
    ensures
        opt_view(r) == match p {
            Some(q) if target_name_spec(*q) is Some => target_name_spec(*q),
            _ => if others@.len() > 0 {
                Some(others@[0]@)
            } else {
                None
            },
        },
{
    match p {
        Some(q) => match q.target_name() {
            Some(t) => {
                return Some(String::from_str(t));
            },
            None => {},
        },
        None => {},
    }
    if others.len() > 0 {
        Some(string_of(&chars_of(others[0].as_str())))
    } else {
        None
    }
}

/// The choices offered for new windows' focus.
pub fn activation_options() -> (r: Vec<&'static str>)
    ensures
        r@.map_values(|s: &str| s@) == seq!["focus"@, "smart"@, "urgent"@, "none"@],
{
    let r = vec!["focus", "smart", "urgent", "none"];
    assert(r@.map_values(|s: &str| s@) =~= seq!["focus"@, "smart"@, "urgent"@, "none"@]);
    r
}

/// The choices offered for focus following the mouse.
pub fn follows_options() -> (r: Vec<&'static str>)
    ensures
        r@.map_values(|s: &str| s@) == seq!["yes"@, "no"@, "always"@],
{
    let r = vec!["yes", "no", "always"];
    assert(r@.map_values(|s: &str| s@) =~= seq!["yes"@, "no"@, "always"@]);
    r
}

/// The choices offered for mouse warping.
pub fn warping_options() -> (r: Vec<&'static str>)
    ensures
        r@.map_values(|s: &str| s@) == seq!["output"@, "container"@, "none"@],
{
    let r = vec!["output", "container", "none"];
    assert(r@.map_values(|s: &str| s@) =~= seq!["output"@, "container"@, "none"@]);
    r
}

/// The choices offered for popups during fullscreen.
pub fn popup_options() -> (r: Vec<&'static str>)
    ensures
        r@.map_values(|s: &str| s@) == seq!["smart"@, "ignore"@, "leave_fullscreen"@],
{
    let r = vec!["smart", "ignore", "leave_fullscreen"];
    assert(r@.map_values(|s: &str| s@) =~= seq!["smart"@, "ignore"@, "leave_fullscreen"@]);
    r
}

/// What a focus-on-activation choice does, in words.
pub open spec fn activation_hint_spec(v: Seq<char>) -> Seq<char> {
    if v == "focus"@ {
        "always steal focus"@
    } else if v == "smart"@ {
        "focus if on active workspace"@
    } else if v == "urgent"@ {
        "mark urgent, don't focus"@
    } else if v == "none"@ {
        "do nothing"@
    } else {
        ""@
    }
}

pub fn activation_hint(v: &str) -> (r: &'static str)
    ensures
        r@ == activation_hint_spec(v@),
{
    let c = chars_of(v);
    if crate::text::eq_str(&c, "focus") {
        "always steal focus"
    } else if crate::text::eq_str(&c, "smart") {
        "focus if on active workspace"
    } else if crate::text::eq_str(&c, "urgent") {
        "mark urgent, don't focus"
    } else if crate::text::eq_str(&c, "none") {
        "do nothing"
    } else {
        ""
    }
}

/// What a focus-follows-mouse choice does, in words.
pub open spec fn follows_hint_spec(v: Seq<char>) -> Seq<char> {
    if v == "yes"@ {
        "focus window under cursor"@
    } else if v == "no"@ {
        "click to focus only"@
    } else if v == "always"@ {
        "aggressive — even across outputs"@
    } else {
        ""@
    }
}

pub fn follows_hint(v: &str) -> (r: &'static str)
    ensures
        r@ == follows_hint_spec(v@),
{
    let c = chars_of(v);
    if crate::text::eq_str(&c, "yes") {
        "focus window under cursor"
    } else if crate::text::eq_str(&c, "no") {
        "click to focus only"
    } else if crate::text::eq_str(&c, "always") {
        "aggressive — even across outputs"
    } else {
        ""
    }
}

/// What a mouse-warping choice does, in words.
pub open spec fn warping_hint_spec(v: Seq<char>) -> Seq<char> {
    if v == "output"@ {
        "warp to focused output"@
    } else if v == "container"@ {
        "warp to focused container"@
    } else if v == "none"@ {
        "never move the cursor"@
    } else {
        ""@
    }
}

pub fn warping_hint(v: &str) -> (r: &'static str)
    ensures
        r@ == warping_hint_spec(v@),
{
    let c = chars_of(v);
    if crate::text::eq_str(&c, "output") {
        "warp to focused output"
    } else if crate::text::eq_str(&c, "container") {
        "warp to focused container"
    } else if crate::text::eq_str(&c, "none") {
        "never move the cursor"
    } else {
        ""
    }
}

/// What a popup-during-fullscreen choice does, in words.
pub open spec fn popup_hint_spec(v: Seq<char>) -> Seq<char> {
    if v == "smart"@ {
        "show if from focused app"@
    } else if v == "ignore"@ {
        "never show"@
    } else if v == "leave_fullscreen"@ {
        "exit fullscreen to show"@
    } else {
        ""@
    }
}

pub fn popup_hint(v: &str) -> (r: &'static str)
    ensures
        r@ == popup_hint_spec(v@),
{
    let c = chars_of(v);
    if crate::text::eq_str(&c, "smart") {
        "show if from focused app"
    } else if crate::text::eq_str(&c, "ignore") {
        "never show"
    } else if crate::text::eq_str(&c, "leave_fullscreen") {
        "exit fullscreen to show"
    } else {
        ""
    }
}

/// What workspace back-and-forth does, in words.
pub fn back_and_forth_hint(on: bool) -> (r: &'static str)
    ensures
        r@ == (if on {
            "repeat shortcut to return"@
        } else {
            "stay on workspace"@
        }),
{
    if on {
        "repeat shortcut to return"
    } else {
        "stay on workspace"
    }
}

} // verus!
