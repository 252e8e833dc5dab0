use oblong::appearance::{AppearanceConfig, BorderStyle, ColorField, ColorTarget};
use oblong::config::{group_bindings, Binding};
use oblong::defaults::DefaultsConfig;
use oblong::editor::{
    activation_hint, activation_options, back_and_forth_hint, default_snap_bindings, follows_hint,
    follows_options, output_named, popup_hint, popup_options, relation_shown, shortcut_save_outcome,
    target_shown, warping_hint, warping_options, Editor, Effect, Message, Tab,
};
use oblong::outputs::{config_from_sway, OutputConfig, OutputPosition, SwayMode, SwayOutput, SwayRect};

fn output(name: &str, serial: &str, x: i32, w: i32, h: i32) -> SwayOutput {
    SwayOutput {
        name: name.to_string(),
        make: "Dell".to_string(),
        model: "U27".to_string(),
        serial: serial.to_string(),
        rect: SwayRect { x, y: 0, width: w, height: h },
        modes: vec![
            SwayMode { width: w, height: h, refresh: 59951 },
            SwayMode { width: 1280, height: 720, refresh: 50000 },
            SwayMode { width: 1280, height: 720, refresh: 60000 },
        ],
        scale: "1".to_string(),
        transform: "normal".to_string(),
    }
}

fn editor() -> Editor {
    let outs = vec![output("DP-1", "SA", 0, 2560, 1440), output("DP-2", "SB", 2560, 1920, 1080)];
    let cfgs: Vec<OutputConfig> = outs.iter().map(config_from_sway).collect();
    Editor::new(
        group_bindings(default_snap_bindings("/usr/bin/oblong")),
        outs,
        cfgs,
        AppearanceConfig::default(),
        vec!["Noto Sans".to_string()],
        DefaultsConfig::default(),
    )
}

#[test]
fn default_shortcuts_snap_with_the_program() {
    let bs = default_snap_bindings("/usr/bin/oblong");
    assert_eq!(bs.len(), 11);
    assert_eq!(bs[0].keys, "$mod+Left");
    assert_eq!(bs[0].command, "exec /usr/bin/oblong snap left");
    assert_eq!(bs[6].keys, "$mod+BackSpace");
    assert_eq!(bs[6].command, "exec /usr/bin/oblong snap restore");
    assert_eq!(bs[10].keys, "$mod+Shift+i");
    assert_eq!(bs[10].command, "exec /usr/bin/oblong snap bottomright");
    let groups = group_bindings(bs);
    assert_eq!(groups.len(), 1);
    assert_eq!(groups[0].name, "Window Snapping");
}

#[test]
fn new_editor_starts_on_shortcuts() {
    let e = editor();
    assert_eq!(e.tab, Tab::Shortcuts);
    assert!(e.editing_color.is_none());
    assert_eq!(e.status, "");
    assert_eq!(e.all_bindings().len(), 11);
    assert_eq!(e.other_output_names("Dell U27 SA"), vec!["Dell U27 SB"]);
}

#[test]
fn switching_tabs_clears_status() {
    let mut e = editor();
    e.status = "old".into();
    assert_eq!(e.update(Message::SwitchTab(Tab::Behavior)), Effect::Nothing);
    assert_eq!(e.tab, Tab::Behavior);
    assert_eq!(e.status, "");
}

#[test]
fn editing_keys() {
    let mut e = editor();
    e.update(Message::KeysChanged(0, 2, "$mod+k".into()));
    assert_eq!(e.groups[0].bindings[2].keys, "$mod+k");
    assert_eq!(e.groups[0].bindings[2].command, "exec /usr/bin/oblong snap up");
    e.status = "kept?".into();
    e.update(Message::KeysChanged(5, 0, "ignored".into()));
    assert_eq!(e.status, "");
    assert_eq!(e.all_bindings()[2].keys, "$mod+k");
}

#[test]
fn saving_and_outside_work_leave_editor_alone() {
    let mut e = editor();
    e.status = "keep".into();
    assert_eq!(e.update(Message::SaveShortcuts), Effect::Save { page: Tab::Shortcuts, reload: false });
    assert_eq!(e.update(Message::SaveAndReloadDisplays), Effect::Save { page: Tab::Displays, reload: true });
    assert_eq!(e.update(Message::SaveAppearance), Effect::Save { page: Tab::Appearance, reload: false });
    assert_eq!(e.update(Message::SaveAndReloadDefaults), Effect::Save { page: Tab::Behavior, reload: true });
    assert_eq!(e.update(Message::FixConflicts), Effect::FixConflicts);
    assert_eq!(e.update(Message::RefreshOutputs), Effect::RefreshOutputs);
    assert_eq!(e.update(Message::Quit), Effect::Quit);
    assert_eq!(e.status, "keep");
}

#[test]
fn choosing_a_resolution_picks_its_highest_refresh() {
    let mut e = editor();
    e.update(Message::OutputResolution(0, "1280x720".into()));
    assert_eq!(e.output_configs[0].resolution.as_deref(), Some("1280x720"));
    assert_eq!(e.output_configs[0].refresh.as_deref(), Some("60.000"));
    e.update(Message::OutputResolution(0, "640x480".into()));
    assert_eq!(e.output_configs[0].refresh, None);
    // A setting named after the connector finds its output too.
    e.output_configs[1].name = "DP-2".into();
    e.update(Message::OutputResolution(1, "1920x1080".into()));
    assert_eq!(e.output_configs[1].refresh.as_deref(), Some("59.951"));
    // Without a matching output the refresh rate stays.
    e.output_configs[1].name = "gone".into();
    e.update(Message::OutputResolution(1, "1280x720".into()));
    assert_eq!(e.output_configs[1].refresh.as_deref(), Some("59.951"));
    assert_eq!(e.output_configs[1].resolution.as_deref(), Some("1280x720"));
}

#[test]
fn changing_a_relation_keeps_or_finds_the_target() {
    let mut e = editor();
    e.update(Message::OutputPosition(1, "Left of".into()));
    assert_eq!(e.output_configs[1].position.as_ref().unwrap().label(), "Left of Dell U27 SA");
    e.update(Message::OutputPosition(1, "Below".into()));
    assert_eq!(e.output_configs[1].position.as_ref().unwrap().label(), "Below Dell U27 SA");
    e.status = "unchanged".into();
    e.update(Message::OutputPosition(1, "Diagonal".into()));
    assert_eq!(e.status, "unchanged");
    assert_eq!(e.output_configs[1].position.as_ref().unwrap().label(), "Below Dell U27 SA");
}

#[test]
fn changing_a_target_keeps_the_relation() {
    let mut e = editor();
    e.output_configs[0].position = None;
    e.update(Message::OutputPositionTarget(0, "X".into()));
    assert_eq!(e.output_configs[0].position.as_ref().unwrap().label(), "Right of X");
    e.output_configs[0].position = Some(OutputPosition::Above("Y".into()));
    e.update(Message::OutputPositionTarget(0, "Z".into()));
    assert_eq!(e.output_configs[0].position.as_ref().unwrap().label(), "Above Z");
    e.output_configs[0].position = Some(OutputPosition::Absolute { x: 1, y: 2 });
    e.status = "same".into();
    e.update(Message::OutputPositionTarget(0, "Z".into()));
    assert_eq!(e.status, "same");
    assert_eq!(e.output_configs[0].position.as_ref().unwrap().label(), "Position 1, 2");
}

#[test]
fn appearance_fields_and_spinners() {
    let mut e = editor();
    e.update(Message::AppFontFamily("Fira Sans".into()));
    assert_eq!(e.appearance.font_family, "Fira Sans");
    e.update(Message::AppFontSize("14".into()));
    assert_eq!(e.appearance.font_size, 14);
    e.update(Message::AppFontSize("big".into()));
    assert_eq!(e.appearance.font_size, 14);
    e.update(Message::AppFontSizeStep(-20));
    assert_eq!(e.appearance.font_size, 1);
    e.update(Message::AppGapsInner("3".into()));
    e.update(Message::AppGapsInnerStep(-1));
    e.update(Message::AppGapsInnerStep(-1));
    e.update(Message::AppGapsInnerStep(-1));
    e.update(Message::AppGapsInnerStep(-1));
    assert_eq!(e.appearance.gaps_inner, 0);
    e.update(Message::AppGapsOuterStep(1));
    assert_eq!(e.appearance.gaps_outer, 6);
    e.update(Message::AppBorderWidth("+7".into()));
    e.update(Message::AppBorderWidthStep(1));
    assert_eq!(e.appearance.border_width, 8);
    e.update(Message::AppBorderStyle("NORMAL".into()));
    assert_eq!(e.appearance.border_style, BorderStyle::Normal);
    e.update(Message::AppBorderStyle("dotted".into()));
    assert_eq!(e.appearance.border_style, BorderStyle::Normal);
}

#[test]
fn spinner_on_a_huge_value_reads_it_as_negative() {
    let mut e = editor();
    e.appearance.gaps_inner = 4_000_000_000;
    assert!(!e.step_would_overflow(&Message::AppGapsInnerStep(1)));
    e.update(Message::AppGapsInnerStep(1));
    assert_eq!(e.appearance.gaps_inner, 0);
    e.appearance.font_size = 2_147_483_647;
    assert!(e.step_would_overflow(&Message::AppFontSizeStep(1)));
    assert!(!e.step_would_overflow(&Message::AppFontSizeStep(-1)));
    assert!(!e.step_would_overflow(&Message::Quit));
}

#[test]
fn colors_by_text_swatch_and_slider() {
    let mut e = editor();
    e.update(Message::AppColor(ColorTarget::Urgent, ColorField::Text, "#123456".into()));
    assert_eq!(e.get_color_hex(ColorTarget::Urgent, ColorField::Text), "#123456");
    // No swatch selected: the slider changes nothing.
    e.update(Message::AppColorSlider(1, 2, 3));
    assert_eq!(e.appearance.colors.focused.border, "#88bb88");
    e.update(Message::AppColorSelect(ColorTarget::Focused, ColorField::Border));
    assert_eq!(e.editing_color, Some((ColorTarget::Focused, ColorField::Border)));
    e.update(Message::AppColorSlider(255, 0, 16));
    assert_eq!(e.appearance.colors.focused.border, "#ff0010");
    e.update(Message::AppColorSelect(ColorTarget::Focused, ColorField::Border));
    assert!(e.editing_color.is_none());
}

#[test]
fn selecting_a_swatch_twice_restores_the_selection() {
    let mut e = editor();
    e.status = "x".into();
    e.update(Message::AppColorSelect(ColorTarget::Unfocused, ColorField::Indicator));
    e.update(Message::AppColorSelect(ColorTarget::Unfocused, ColorField::Indicator));
    assert!(e.editing_color.is_none());
    assert_eq!(e.status, "x");
}

#[test]
fn behavior_fields() {
    let mut e = editor();
    e.update(Message::DefaultsFocusActivation("urgent".into()));
    e.update(Message::DefaultsFocusFollowsMouse("always".into()));
    e.update(Message::DefaultsPopupFullscreen("leave_fullscreen".into()));
    e.update(Message::DefaultsAutoBackAndForth(false));
    e.update(Message::DefaultsMouseWarping("none".into()));
    assert_eq!(e.defaults.focus_on_window_activation, "urgent");
    assert_eq!(e.defaults.focus_follows_mouse, "always");
    assert_eq!(e.defaults.popup_during_fullscreen, "leave_fullscreen");
    assert!(!e.defaults.workspace_auto_back_and_forth);
    assert_eq!(e.defaults.mouse_warping, "none");
}

#[test]
fn save_outcomes_and_reload_reports() {
    let mut e = editor();
    assert_eq!(e.finish_save(Tab::Shortcuts, false, Ok(())), None);
    assert_eq!(e.status, "✓ Saved.");
    assert_eq!(e.finish_save(Tab::Shortcuts, true, Ok(())), Some("Saved".to_string()));
    assert_eq!(e.finish_save(Tab::Displays, false, Ok(())), None);
    assert_eq!(e.status, "✓ Display config saved.");
    assert_eq!(e.finish_save(Tab::Displays, true, Ok(())), Some("Display config saved".to_string()));
    assert_eq!(e.finish_save(Tab::Appearance, false, Ok(())), None);
    assert_eq!(e.status, "Saved.");
    assert_eq!(e.finish_save(Tab::Appearance, true, Err("disk full".into())), None);
    assert_eq!(e.status, "Error: disk full");
    assert_eq!(e.finish_save(Tab::Behavior, true, Err("no dir".into())), None);
    assert_eq!(e.status, "✗ Error: no dir");
    assert_eq!(e.finish_save(Tab::Behavior, true, Ok(())), Some("Behavior saved".to_string()));
    e.finish_reload("Behavior saved", Ok(()));
    assert_eq!(e.status, "✓ Behavior saved & sway reloaded.");
    e.finish_reload("Saved", Err("not found".into()));
    assert_eq!(e.status, "✓ Saved, but reload failed: not found");
}

#[test]
fn shortcut_save_with_conflicts() {
    assert_eq!(shortcut_save_outcome(&vec![]), Ok(()));
    let msg = shortcut_save_outcome(&vec!["$mod+Left".to_string(), "$mod+q".to_string()]).unwrap_err();
    assert_eq!(
        msg,
        "Saved, but 2 key(s) also bound in main config: $mod+Left, $mod+q. Use 'Fix Conflicts' to resolve."
    );
    let mut e = editor();
    assert_eq!(e.finish_save(Tab::Shortcuts, false, Err(msg.clone())), None);
    assert_eq!(e.status, format!("⚠ {msg}"));
    assert_eq!(e.finish_save(Tab::Shortcuts, true, Err(msg.clone())), Some(msg.clone()));
    assert_eq!(e.finish_save(Tab::Shortcuts, true, Err("permission denied".into())), None);
    assert_eq!(e.status, "✗ Error: permission denied");
}

#[test]
fn fixing_conflicts() {
    let mut e = editor();
    let none = e.conflicts_to_fix("bindsym $mod+x exec foo\n");
    assert!(none.is_none());
    assert_eq!(e.status, "No conflicts found.");
    e.status = String::new();
    let keys = e.conflicts_to_fix("bindsym $mod+Left focus left\nbindsym $mod+m exec x\n").unwrap();
    assert_eq!(keys, vec!["$mod+Left", "$mod+m"]);
    assert_eq!(e.status, "");
    e.finish_fix(Ok(2));
    assert_eq!(e.status, "✓ Commented out 2 conflicting binding(s).");
    e.finish_fix(Err("read-only".into()));
    assert_eq!(e.status, "✗ Error: read-only");
}

#[test]
fn refreshing_outputs_starts_over() {
    let mut e = editor();
    e.output_configs[0].resolution = Some("1280x720".into());
    e.finish_refresh(Ok(vec![output("DP-1", "SA", 0, 2560, 1440), output("DP-2", "SB", 2560, 1920, 1080)]));
    assert_eq!(e.status, "Refreshed from sway.");
    assert_eq!(e.output_configs.len(), 2);
    assert_eq!(e.output_configs[0].resolution.as_deref(), Some("2560x1440"));
    assert_eq!(e.output_configs[1].position.as_ref().unwrap().label(), "Right of Dell U27 SA");
    e.finish_refresh(Err("no sway".into()));
    assert_eq!(e.status, "Error: no sway");
    assert_eq!(e.sway_outputs.len(), 2);
}

#[test]
fn keys_of_blank_bindings_are_kept_in_all_bindings() {
    let mut e = editor();
    e.groups[0].bindings.push(Binding { keys: " ".into(), command: "kill".into() });
    assert_eq!(e.all_bindings().len(), 12);
}

#[test]
fn settings_find_their_output_by_id_or_connector() {
    let e = editor();
    assert_eq!(output_named(&e.sway_outputs, "Dell U27 SB"), Some(1));
    assert_eq!(output_named(&e.sway_outputs, "DP-1"), Some(0));
    assert_eq!(output_named(&e.sway_outputs, "HDMI-A-1"), None);
}

#[test]
fn position_pickers_show_relation_and_target() {
    assert_eq!(relation_shown(&Some(OutputPosition::Above("A".into()))), Some("Above"));
    assert_eq!(relation_shown(&Some(OutputPosition::Absolute { x: 0, y: 0 })), Some("Right of"));
    assert_eq!(relation_shown(&None), None);
    let others = vec!["B".to_string(), "C".to_string()];
    assert_eq!(target_shown(&Some(OutputPosition::LeftOf("A".into())), &others), Some("A".to_string()));
    assert_eq!(target_shown(&Some(OutputPosition::Absolute { x: 0, y: 0 }), &others), Some("B".to_string()));
    assert_eq!(target_shown(&None, &vec![]), None);
}

#[test]
fn behavior_choices_and_their_words() {
    assert_eq!(activation_options(), vec!["focus", "smart", "urgent", "none"]);
    assert_eq!(follows_options(), vec!["yes", "no", "always"]);
    assert_eq!(warping_options(), vec!["output", "container", "none"]);
    assert_eq!(popup_options(), vec!["smart", "ignore", "leave_fullscreen"]);
    assert_eq!(activation_hint("urgent"), "mark urgent, don't focus");
    assert_eq!(activation_hint("Focus"), "");
    assert_eq!(follows_hint("always"), "aggressive — even across outputs");
    assert_eq!(warping_hint("none"), "never move the cursor");
    assert_eq!(popup_hint("leave_fullscreen"), "exit fullscreen to show");
    assert_eq!(popup_hint(""), "");
    assert_eq!(back_and_forth_hint(true), "repeat shortcut to return");
    assert_eq!(back_and_forth_hint(false), "stay on workspace");
}
