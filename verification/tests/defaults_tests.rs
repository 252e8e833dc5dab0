use oblong::defaults::{defaults_conf, defaults_config_path, live_commands, swayidle_args, DefaultsConfig};

/// The text the behavior file should hold, built the way the format
/// strings of the generator read.
fn expected_defaults(config: &DefaultsConfig, h: &str) -> String {
    let mut out = String::from("# ── Oblong defaults — auto-generated, do not edit by hand ──\n\n");
    out.push_str(&format!("focus_on_window_activation {}\n", config.focus_on_window_activation));
    out.push_str(&format!("focus_follows_mouse {}\n", config.focus_follows_mouse));
    out.push_str(&format!("popup_during_fullscreen {}\n", config.popup_during_fullscreen));
    out.push_str(&format!(
        "workspace_auto_back_and_forth {}\n",
        if config.workspace_auto_back_and_forth { "yes" } else { "no" }
    ));
    out.push_str(&format!("mouse_warping {}\n", config.mouse_warping));
    if config.float_by_default {
        out.push_str("\n# Float all new windows by default (macOS-like)\n");
        out.push_str("for_window [app_id=\".*\"] floating enable\n");
        out.push_str("for_window [title=\".*\"] floating enable\n");
    }
    out.push_str("\n# Oblong GUI: float, center, reasonable size\n");
    out.push_str("for_window [app_id=\"Oblong\"] floating enable\n");
    out.push_str("for_window [app_id=\"Oblong\"] move position center\n");
    if config.super_copy_paste {
        out.push_str("\n# macOS-style Super key shortcuts (requires wtype)\n");
        out.push_str(&format!("bindsym --no-repeat $mod+c exec {} copy\n", h));
        out.push_str(&format!("bindsym --no-repeat $mod+v exec {} paste\n", h));
        out.push_str(&format!("bindsym --no-repeat $mod+a exec {} select-all\n", h));
        out.push_str(&format!("bindsym --no-repeat $mod+z exec {} undo\n", h));
        out.push_str(&format!("bindsym --no-repeat $mod+Shift+z exec {} redo\n", h));
        out.push_str(&format!("bindsym --no-repeat $mod+x exec {} cut\n", h));
    }
    if config.screen_blank_timeout > 0 || config.lock_timeout > 0 {
        out.push_str("\n# Screen blanking & auto-lock\n");
        let mut idle_args = String::from("exec swayidle -w");
        if config.screen_blank_timeout > 0 {
            idle_args.push_str(&format!(
                " timeout {} 'swaymsg \"output * power off\"' resume 'swaymsg \"output * power on\"'",
                config.screen_blank_timeout
            ));
        }
        if config.lock_timeout > 0 {
            idle_args.push_str(&format!(" timeout {} 'swaylock -c 1a1a1a'", config.lock_timeout));
        }
        idle_args.push_str(" before-sleep 'swaylock -c 1a1a1a'");
        out.push_str(&idle_args);
        out.push('\n');
    }
    out.push('\n');
    out
}

#[test]
fn default_behavior_values() {
    let d = DefaultsConfig::default();
    assert_eq!(d.focus_on_window_activation, "focus");
    assert_eq!(d.focus_follows_mouse, "yes");
    assert_eq!(d.popup_during_fullscreen, "smart");
    assert!(d.workspace_auto_back_and_forth);
    assert_eq!(d.mouse_warping, "output");
    assert!(d.float_by_default);
    assert!(!d.super_copy_paste);
    assert_eq!((d.screen_blank_timeout, d.lock_timeout), (300, 600));
}

#[test]
fn behavior_file_for_defaults() {
    let d = DefaultsConfig::default();
    let h = "/home/u/.config/sway/oblong/super-key-helper.sh";
    assert_eq!(defaults_conf(&d, h), expected_defaults(&d, h));
}

#[test]
fn behavior_file_with_super_keys_and_no_idle() {
    let mut d = DefaultsConfig::default();
    d.super_copy_paste = true;
    d.float_by_default = false;
    d.workspace_auto_back_and_forth = false;
    d.screen_blank_timeout = 0;
    d.lock_timeout = 0;
    let h = "/h/helper.sh";
    let text = defaults_conf(&d, h);
    assert_eq!(text, expected_defaults(&d, h));
    assert!(text.contains("bindsym --no-repeat $mod+Shift+z exec /h/helper.sh redo\n"));
    assert!(!text.contains("swayidle"));
    d.lock_timeout = 60;
    assert_eq!(defaults_conf(&d, h), expected_defaults(&d, h));
}

#[test]
fn live_commands_follow_settings() {
    let d = DefaultsConfig::default();
    assert_eq!(
        live_commands(&d),
        vec![
            "focus_on_window_activation focus",
            "focus_follows_mouse yes",
            "popup_during_fullscreen smart",
            "workspace_auto_back_and_forth yes",
            "mouse_warping output",
            "for_window [app_id=\".*\"] floating enable",
            "for_window [title=\".*\"] floating enable",
        ]
    );
    let mut e = DefaultsConfig::default();
    e.float_by_default = false;
    e.workspace_auto_back_and_forth = false;
    assert_eq!(live_commands(&e).len(), 5);
    assert_eq!(live_commands(&e)[3], "workspace_auto_back_and_forth no");
}

#[test]
fn swayidle_arguments() {
    let d = DefaultsConfig::default();
    assert_eq!(
        swayidle_args(&d).unwrap(),
        vec![
            "-w",
            "timeout",
            "300",
            "swaymsg \"output * power off\"",
            "resume",
            "swaymsg \"output * power on\"",
            "timeout",
            "600",
            "swaylock -c 1a1a1a",
            "before-sleep",
            "swaylock -c 1a1a1a",
        ]
    );
    let mut off = DefaultsConfig::default();
    off.screen_blank_timeout = 0;
    off.lock_timeout = 0;
    assert!(swayidle_args(&off).is_none());
    off.lock_timeout = 5;
    assert_eq!(
        swayidle_args(&off).unwrap(),
        vec!["-w", "timeout", "5", "swaylock -c 1a1a1a", "before-sleep", "swaylock -c 1a1a1a"]
    );
}

#[test]
fn defaults_path_under_home() {
    assert_eq!(defaults_config_path("/home/u"), "/home/u/.config/oblong/defaults.json");
}
