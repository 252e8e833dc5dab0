//! Behavior defaults: focus and mouse policy, floating, the macOS-style
//! Super key, screen blanking and locking; the generated `defaults.conf`
//! and the commands that apply the same settings to a running sway.
use vstd::prelude::*;
use crate::text::{chars_of, extend_chars, extend_str, nat_text, string_of, u64_text};

verus! {

#[derive(Debug, Clone)]
pub struct DefaultsConfig {
    /// New windows steal focus (instead of launching behind)
    pub focus_on_window_activation: String,
    /// Mouse focus behavior
    pub focus_follows_mouse: String,
    /// What happens when a popup appears during fullscreen
    pub popup_during_fullscreen: String,
    /// Repeated workspace switch goes back
    pub workspace_auto_back_and_forth: bool,
    /// Mouse warps to focused container
    pub mouse_warping: String,
    /// Float all new windows by default (macOS-like)
    pub float_by_default: bool,
    /// macOS-style Super+C/V/A/Z shortcuts
    pub super_copy_paste: bool,
    /// Screen blank timeout in seconds (0 = disabled)
    pub screen_blank_timeout: u32,
    /// Lock screen timeout in seconds (0 = disabled)
    pub lock_timeout: u32,
}

impl Default for DefaultsConfig {
    fn default() -> (r: Self)
        ensures
            r.focus_on_window_activation@ == "focus"@,
            r.focus_follows_mouse@ == "yes"@,
            r.popup_during_fullscreen@ == "smart"@,
            r.workspace_auto_back_and_forth,
            r.mouse_warping@ == "output"@,
            r.float_by_default,
            !r.super_copy_paste,
            r.screen_blank_timeout == 300,
            r.lock_timeout == 600,
    {
        DefaultsConfig {
            focus_on_window_activation: String::from_str("focus"),
            focus_follows_mouse: String::from_str("yes"),
            popup_during_fullscreen: String::from_str("smart"),
            workspace_auto_back_and_forth: true,
            mouse_warping: String::from_str("output"),
            float_by_default: true,
            super_copy_paste: false,
            screen_blank_timeout: 300,
            lock_timeout: 600,
        }
    }
}

/// `yes` or `no`.
pub open spec fn yes_no(b: bool) -> Seq<char> {
    if b {
        "yes"@
    } else {
        "no"@
    }
}

/// The directives of the focus, popup, workspace and mouse settings.
pub open spec fn settings_lines(c: DefaultsConfig) -> Seq<char> {
    "focus_on_window_activation "@ + c.focus_on_window_activation@ + "\n"@
        + "focus_follows_mouse "@ + c.focus_follows_mouse@ + "\n"@ + "popup_during_fullscreen "@
        + c.popup_during_fullscreen@ + "\n"@ + "workspace_auto_back_and_forth "@ + yes_no(
        c.workspace_auto_back_and_forth,
    ) + "\n"@ + "mouse_warping "@ + c.mouse_warping@ + "\n"@
}

pub open spec fn float_lines(c: DefaultsConfig) -> Seq<char> {
    if c.float_by_default {
        "\n# Float all new windows by default (macOS-like)\n"@
            + "for_window [app_id=\".*\"] floating enable\n"@
            + "for_window [title=\".*\"] floating enable\n"@
    } else {
        seq![]
    }
}

pub open spec fn gui_lines() -> Seq<char> {
    "\n# Oblong GUI: float, center, reasonable size\n"@
        + "for_window [app_id=\"Oblong\"] floating enable\n"@
        + "for_window [app_id=\"Oblong\"] move position center\n"@
}

/// One `bindsym` of the Super key helper.
pub open spec fn super_binding(combo: Seq<char>, helper: Seq<char>, action: Seq<char>) -> Seq<char> {
    "bindsym --no-repeat "@ + combo + " exec "@ + helper + " "@ + action + "\n"@
}

pub open spec fn super_lines(c: DefaultsConfig, helper: Seq<char>) -> Seq<char> {
    if c.super_copy_paste {
        "\n# macOS-style Super key shortcuts (requires wtype)\n"@ + super_binding(
            "$mod+c"@,
            helper,
            "copy"@,
        ) + super_binding("$mod+v"@, helper, "paste"@) + super_binding(
            "$mod+a"@,
            helper,
            "select-all"@,
        ) + super_binding("$mod+z"@, helper, "undo"@) + super_binding(
            "$mod+Shift+z"@,
            helper,
            "redo"@,
        ) + super_binding("$mod+x"@, helper, "cut"@)
    } else {
        seq![]
    }
}

/// Whether swayidle is wanted: blanking or locking is enabled.
pub open spec fn wants_idle(c: DefaultsConfig) -> bool {
    c.screen_blank_timeout > 0 || c.lock_timeout > 0
}

pub open spec fn idle_lines(c: DefaultsConfig) -> Seq<char> {
    if wants_idle(c) {
        "\n# Screen blanking & auto-lock\n"@ + "exec swayidle -w"@ + (if c.screen_blank_timeout > 0 {
            " timeout "@ + nat_text(c.screen_blank_timeout as nat)
                + " 'swaymsg \"output * power off\"' resume 'swaymsg \"output * power on\"'"@
        } else {
            seq![]
        }) + (if c.lock_timeout > 0 {
            " timeout "@ + nat_text(c.lock_timeout as nat) + " 'swaylock -c 1a1a1a'"@
        } else {
            seq![]
        }) + " before-sleep 'swaylock -c 1a1a1a'"@ + "\n"@
    } else {
        seq![]
    }
}

/// The text of the generated `defaults.conf`, with `helper` the path of
/// the Super key helper script.
pub open spec fn defaults_text(c: DefaultsConfig, helper: Seq<char>) -> Seq<char> {
    "# ── Oblong defaults — auto-generated, do not edit by hand ──\n\n"@ + settings_lines(c)
        + float_lines(c) + gui_lines() + super_lines(c, helper) + idle_lines(c) + "\n"@
}

fn push_super(out: &mut Vec<char>, combo: &str, helper: &str, action: &str)
    ensures
        final(out)@ == old(out)@ + super_binding(combo@, helper@, action@),
{
    extend_str(out, "bindsym --no-repeat ");
    extend_str(out, combo);
    extend_str(out, " exec ");
    extend_str(out, helper);
    extend_str(out, " ");
    extend_str(out, action);
    extend_str(out, "\n");
}

fn push_settings(out: &mut Vec<char>, config: &DefaultsConfig)
    ensures
        final(out)@ == old(out)@ + settings_lines(*config),
{
    extend_str(out, "focus_on_window_activation ");
    extend_str(out, config.focus_on_window_activation.as_str());
    extend_str(out, "\n");
    extend_str(out, "focus_follows_mouse ");
    extend_str(out, config.focus_follows_mouse.as_str());
    extend_str(out, "\n");
    extend_str(out, "popup_during_fullscreen ");
    extend_str(out, config.popup_during_fullscreen.as_str());
    extend_str(out, "\n");
    extend_str(out, "workspace_auto_back_and_forth ");
    if config.workspace_auto_back_and_forth {
        extend_str(out, "yes");
    } else {
        extend_str(out, "no");
    }
    extend_str(out, "\n");
    extend_str(out, "mouse_warping ");
    extend_str(out, config.mouse_warping.as_str());
    extend_str(out, "\n");
}

fn push_float(out: &mut Vec<char>, config: &DefaultsConfig)
    ensures
        final(out)@ == old(out)@ + float_lines(*config),
{
    if config.float_by_default {
        extend_str(out, "\n# Float all new windows by default (macOS-like)\n");
        extend_str(out, "for_window [app_id=\".*\"] floating enable\n");
        extend_str(out, "for_window [title=\".*\"] floating enable\n");
    } else {
        assert(old(out)@ + float_lines(*config) == old(out)@);
    }
}

fn push_gui(out: &mut Vec<char>)
    ensures
        final(out)@ == old(out)@ + gui_lines(),
{
    extend_str(out, "\n# Oblong GUI: float, center, reasonable size\n");
    extend_str(out, "for_window [app_id=\"Oblong\"] floating enable\n");
    extend_str(out, "for_window [app_id=\"Oblong\"] move position center\n");
}

fn push_super_lines(out: &mut Vec<char>, config: &DefaultsConfig, helper: &str)
    ensures
        final(out)@ == old(out)@ + super_lines(*config, helper@),
{
    if config.super_copy_paste {
        extend_str(out, "\n# macOS-style Super key shortcuts (requires wtype)\n");
        push_super(out, "$mod+c", helper, "copy");
        push_super(out, "$mod+v", helper, "paste");
        push_super(out, "$mod+a", helper, "select-all");
        push_super(out, "$mod+z", helper, "undo");
        push_super(out, "$mod+Shift+z", helper, "redo");
        push_super(out, "$mod+x", helper, "cut");
    } else {
        assert(old(out)@ + super_lines(*config, helper@) == old(out)@);
    }
}

fn push_idle(out: &mut Vec<char>, config: &DefaultsConfig)
    ensures
        final(out)@ == old(out)@ + idle_lines(*config),
{
    if config.screen_blank_timeout > 0 || config.lock_timeout > 0 {
        let ghost s = old(out)@;
        extend_str(out, "\n# Screen blanking & auto-lock\n");
        extend_str(out, "exec swayidle -w");
        let ghost a = out@;
        let mut blank: Vec<char> = Vec::new();
        if config.screen_blank_timeout > 0 {
            extend_str(&mut blank, " timeout ");
            extend_chars(&mut blank, &u64_text(config.screen_blank_timeout as u64));
            extend_str(
                &mut blank,
                " 'swaymsg \"output * power off\"' resume 'swaymsg \"output * power on\"'",
            );
        }
        let mut lock: Vec<char> = Vec::new();
        if config.lock_timeout > 0 {
            extend_str(&mut lock, " timeout ");
            extend_chars(&mut lock, &u64_text(config.lock_timeout as u64));
            extend_str(&mut lock, " 'swaylock -c 1a1a1a'");
        }
        extend_chars(out, &blank);
        extend_chars(out, &lock);
        extend_str(out, " before-sleep 'swaylock -c 1a1a1a'");
        extend_str(out, "\n");
    } else {
        assert(old(out)@ + idle_lines(*config) == old(out)@);
    }
}

/// The generated `defaults.conf`; `helper` is the path of the Super key
/// helper script (used when the Super key shortcuts are on).
pub fn defaults_conf(config: &DefaultsConfig, helper: &str) -> (r: String)
    ensures
        r@ == defaults_text(*config, helper@),
{
    let mut out = chars_of("# ── Oblong defaults — auto-generated, do not edit by hand ──\n\n");
    push_settings(&mut out, config);
    push_float(&mut out, config);
    push_gui(&mut out);
    push_super_lines(&mut out, config, helper);
    push_idle(&mut out, config);
    extend_str(&mut out, "\n");
    string_of(&out)
}

/// The commands that apply the focus, popup, workspace, mouse and
/// floating settings to a running sway.
pub open spec fn live_commands_spec(c: DefaultsConfig) -> Seq<Seq<char>> {
    seq![
        "focus_on_window_activation "@ + c.focus_on_window_activation@,
        "focus_follows_mouse "@ + c.focus_follows_mouse@,
        "popup_during_fullscreen "@ + c.popup_during_fullscreen@,
        "workspace_auto_back_and_forth "@ + yes_no(c.workspace_auto_back_and_forth),
        "mouse_warping "@ + c.mouse_warping@,
    ] + if c.float_by_default {
        seq![
            "for_window [app_id=\".*\"] floating enable"@,
            "for_window [title=\".*\"] floating enable"@,
        ]
    } else {
        seq![]
    }
}

fn lit_then(prefix: &str, rest: &str) -> (r: String)
    ensures
        r@ == prefix@ + rest@,
{
    let mut v = chars_of(prefix);
    extend_str(&mut v, rest);
    string_of(&v)
}

/// The `swaymsg` commands that apply the settings to a running sway.
pub fn live_commands(config: &DefaultsConfig) -> (r: Vec<String>)
    ensures
        r@.map_values(|s: String| s@) == live_commands_spec(*config),
{
    let mut r: Vec<String> = Vec::new();
    r.push(lit_then("focus_on_window_activation ", config.focus_on_window_activation.as_str()));
    r.push(lit_then("focus_follows_mouse ", config.focus_follows_mouse.as_str()));
    r.push(lit_then("popup_during_fullscreen ", config.popup_during_fullscreen.as_str()));
    r.push(
        lit_then(
            "workspace_auto_back_and_forth ",
            if config.workspace_auto_back_and_forth {
                "yes"
            } else {
                "no"
            },
        ),
    );
    r.push(lit_then("mouse_warping ", config.mouse_warping.as_str()));
    if config.float_by_default {
        r.push(String::from_str("for_window [app_id=\".*\"] floating enable"));
        r.push(String::from_str("for_window [title=\".*\"] floating enable"));
    }
    assert(r@.map_values(|s: String| s@) =~= live_commands_spec(*config));
    r
}

/// The arguments of `swayidle` for the blanking and locking timeouts.
pub open spec fn swayidle_args_spec(c: DefaultsConfig) -> Seq<Seq<char>> {
    seq!["-w"@] + (if c.screen_blank_timeout > 0 {
        seq![
            "timeout"@,
            nat_text(c.screen_blank_timeout as nat),
            "swaymsg \"output * power off\""@,
            "resume"@,
            "swaymsg \"output * power on\""@,
        ]
    } else {
        seq![]
    }) + (if c.lock_timeout > 0 {
        seq!["timeout"@, nat_text(c.lock_timeout as nat), "swaylock -c 1a1a1a"@]
    } else {
        seq![]
    }) + seq!["before-sleep"@, "swaylock -c 1a1a1a"@]
}

/// The arguments to restart `swayidle` with, or `None` when neither
/// blanking nor locking is enabled (it is then not started).
pub fn swayidle_args(config: &DefaultsConfig) -> (r: Option<Vec<String>>)
    ensures
        wants_idle(*config) ==> (r matches Some(a) && a@.map_values(|s: String| s@)
            == swayidle_args_spec(*config)),
        !wants_idle(*config) ==> r is None,
{
    if !(config.screen_blank_timeout > 0 || config.lock_timeout > 0) {
        return None;
    }
    let mut a: Vec<String> = Vec::new();
    a.push(String::from_str("-w"));
    if config.screen_blank_timeout > 0 {
        a.push(String::from_str("timeout"));
        a.push(string_of(&u64_text(config.screen_blank_timeout as u64)));
        a.push(String::from_str("swaymsg \"output * power off\""));
        a.push(String::from_str("resume"));
        a.push(String::from_str("swaymsg \"output * power on\""));
    }
    if config.lock_timeout > 0 {
        a.push(String::from_str("timeout"));
        a.push(string_of(&u64_text(config.lock_timeout as u64)));
        a.push(String::from_str("swaylock -c 1a1a1a"));
    }
    a.push(String::from_str("before-sleep"));
    a.push(String::from_str("swaylock -c 1a1a1a"));
    assert(a@.map_values(|s: String| s@) =~= swayidle_args_spec(*config));
    Some(a)
}

/// The settings file of the defaults: `defaults.json` in oblong's
/// settings directory.
pub fn defaults_config_path(home: &str) -> (r: String)
    ensures
        r@ == crate::config::path_join(
            crate::config::path_join(crate::config::path_join(home@, ".config"@), "oblong"@),
            "defaults.json"@,
        ),
{
    let d = crate::config::config_dir(home);
    crate::config::join_path(d.as_str(), "defaults.json")
}

// ── Laws ────────────────────────────────────────────────────

/// The screen blanking and locking line of `defaults.conf`: blanking
/// after `screen_blank_timeout` seconds when it is above 0, locking after
/// `lock_timeout` seconds when it is above 0 (a timeout of 0 disables
/// it), always locking before sleep; no line when both are disabled.
pub proof fn lemma_idle_line(c: DefaultsConfig)
    ensures
        c.screen_blank_timeout == 0 && c.lock_timeout == 0 ==> idle_lines(c) == Seq::<char>::empty(),
        c.screen_blank_timeout > 0 && c.lock_timeout == 0 ==> idle_lines(c) == "\n# Screen blanking & auto-lock\nexec swayidle -w timeout "@ + nat_text(
            c.screen_blank_timeout as nat,
        ) + " 'swaymsg \"output * power off\"' resume 'swaymsg \"output * power on\"' before-sleep 'swaylock -c 1a1a1a'\n"@,
        c.screen_blank_timeout == 0 && c.lock_timeout > 0 ==> idle_lines(c) == "\n# Screen blanking & auto-lock\nexec swayidle -w timeout "@ + nat_text(
            c.lock_timeout as nat,
        ) + " 'swaylock -c 1a1a1a' before-sleep 'swaylock -c 1a1a1a'\n"@,
        c.screen_blank_timeout > 0 && c.lock_timeout > 0 ==> idle_lines(c) == "\n# Screen blanking & auto-lock\nexec swayidle -w timeout "@ + nat_text(
            c.screen_blank_timeout as nat,
        ) + " 'swaymsg \"output * power off\"' resume 'swaymsg \"output * power on\"' timeout "@ + nat_text(c.lock_timeout as nat) + " 'swaylock -c 1a1a1a' before-sleep 'swaylock -c 1a1a1a'\n"@,
{
    reveal_strlit("\n# Screen blanking & auto-lock\n");
    reveal_strlit("exec swayidle -w");
    reveal_strlit(" timeout ");
    reveal_strlit(" 'swaymsg \"output * power off\"' resume 'swaymsg \"output * power on\"'");
    reveal_strlit(" 'swaylock -c 1a1a1a'");
    reveal_strlit(" before-sleep 'swaylock -c 1a1a1a'");
    reveal_strlit("\n");
    reveal_strlit("\n# Screen blanking & auto-lock\nexec swayidle -w timeout ");
    reveal_strlit(" 'swaymsg \"output * power off\"' resume 'swaymsg \"output * power on\"' before-sleep 'swaylock -c 1a1a1a'\n");
    reveal_strlit(" 'swaylock -c 1a1a1a' before-sleep 'swaylock -c 1a1a1a'\n");
    reveal_strlit(" 'swaymsg \"output * power off\"' resume 'swaymsg \"output * power on\"' timeout ");
    if c.screen_blank_timeout > 0 && c.lock_timeout == 0 {
        assert(idle_lines(c) =~= "\n# Screen blanking & auto-lock\nexec swayidle -w timeout "@ + nat_text(c.screen_blank_timeout as nat) + " 'swaymsg \"output * power off\"' resume 'swaymsg \"output * power on\"' before-sleep 'swaylock -c 1a1a1a'\n"@);
    } else if c.screen_blank_timeout == 0 && c.lock_timeout > 0 {
        assert(idle_lines(c) =~= "\n# Screen blanking & auto-lock\nexec swayidle -w timeout "@ + nat_text(c.lock_timeout as nat) + " 'swaylock -c 1a1a1a' before-sleep 'swaylock -c 1a1a1a'\n"@);
    } else if c.screen_blank_timeout > 0 && c.lock_timeout > 0 {
        assert(idle_lines(c) =~= "\n# Screen blanking & auto-lock\nexec swayidle -w timeout "@ + nat_text(c.screen_blank_timeout as nat) + " 'swaymsg \"output * power off\"' resume 'swaymsg \"output * power on\"' timeout "@
            + nat_text(c.lock_timeout as nat) + " 'swaylock -c 1a1a1a' before-sleep 'swaylock -c 1a1a1a'\n"@);
    }
}

/// `defaults.conf` ends with the blanking and locking line (then an empty
/// line), whatever else it holds.
pub proof fn lemma_idle_line_ends_file(c: DefaultsConfig, helper: Seq<char>)
    ensures
        crate::text::ends_with(defaults_text(c, helper), idle_lines(c) + "\n"@),
{
    let t = defaults_text(c, helper);
    let e = idle_lines(c) + "\n"@;
    let pre = "# ── Oblong defaults — auto-generated, do not edit by hand ──\n\n"@ + settings_lines(c)
        + float_lines(c) + gui_lines() + super_lines(c, helper);
    assert(t =~= pre + e);
    assert(t.skip(t.len() - e.len()) =~= e);
}

/// The arguments swayidle is restarted with: the blanking timeout only
/// when blanking is enabled, the lock timeout only when locking is
/// enabled, and locking before sleep.
pub proof fn lemma_idle_args(c: DefaultsConfig)
    ensures
        c.screen_blank_timeout == 0 && c.lock_timeout > 0 ==> swayidle_args_spec(c) == seq![
            "-w"@,
            "timeout"@,
            nat_text(c.lock_timeout as nat),
            "swaylock -c 1a1a1a"@,
            "before-sleep"@,
            "swaylock -c 1a1a1a"@,
        ],
        c.screen_blank_timeout > 0 && c.lock_timeout == 0 ==> swayidle_args_spec(c) == seq![
            "-w"@,
            "timeout"@,
            nat_text(c.screen_blank_timeout as nat),
            "swaymsg \"output * power off\""@,
            "resume"@,
            "swaymsg \"output * power on\""@,
            "before-sleep"@,
            "swaylock -c 1a1a1a"@,
        ],
        c.screen_blank_timeout > 0 && c.lock_timeout > 0 ==> swayidle_args_spec(c) == seq![
            "-w"@,
            "timeout"@,
            nat_text(c.screen_blank_timeout as nat),
            "swaymsg \"output * power off\""@,
            "resume"@,
            "swaymsg \"output * power on\""@,
            "timeout"@,
            nat_text(c.lock_timeout as nat),
            "swaylock -c 1a1a1a"@,
            "before-sleep"@,
            "swaylock -c 1a1a1a"@,
        ],
{
    if c.screen_blank_timeout == 0 && c.lock_timeout > 0 {
        assert(swayidle_args_spec(c) =~= seq![
            "-w"@,
            "timeout"@,
            nat_text(c.lock_timeout as nat),
            "swaylock -c 1a1a1a"@,
            "before-sleep"@,
            "swaylock -c 1a1a1a"@,
        ]);
    } else if c.screen_blank_timeout > 0 && c.lock_timeout == 0 {
        assert(swayidle_args_spec(c) =~= seq![
            "-w"@,
            "timeout"@,
            nat_text(c.screen_blank_timeout as nat),
            "swaymsg \"output * power off\""@,
            "resume"@,
            "swaymsg \"output * power on\""@,
            "before-sleep"@,
            "swaylock -c 1a1a1a"@,
        ]);
    } else if c.screen_blank_timeout > 0 && c.lock_timeout > 0 {
        assert(swayidle_args_spec(c) =~= seq![
            "-w"@,
            "timeout"@,
            nat_text(c.screen_blank_timeout as nat),
            "swaymsg \"output * power off\""@,
            "resume"@,
            "swaymsg \"output * power on\""@,
            "timeout"@,
            nat_text(c.lock_timeout as nat),
            "swaylock -c 1a1a1a"@,
            "before-sleep"@,
            "swaylock -c 1a1a1a"@,
        ]);
    }
}

} // verus!
