use oblong::config::{
    categorize, comment_out_conflicts, config_dir, config_path, detect_conflicts, ensure_include,
    group_bindings, label_for_command, parse_sway_bindings, shortcuts_conf, sway_config_path,
    sway_oblong_dir, Binding,
};

fn b(keys: &str, command: &str) -> Binding {
    Binding { keys: keys.to_string(), command: command.to_string() }
}

#[test]
fn parses_bindsym_lines_with_continuations() {
    let content = "set $mod Mod4\n\
                   bindsym $mod+Return exec $term\n  \
                   bindsym $mod+Shift+q kill\n\
                   # bindsym $mod+x nope\n\
                   bindsym $mod+d exec \\\n    fuzzel --flag \\\n   more\n\
                   bindsym lonely\n";
    let bs = parse_sway_bindings(content);
    assert_eq!(bs.len(), 3);
    assert_eq!(bs[0].keys, "$mod+Return");
    assert_eq!(bs[0].command, "exec $term");
    assert_eq!(bs[1].keys, "$mod+Shift+q");
    assert_eq!(bs[1].command, "kill");
    assert_eq!(bs[2].keys, "$mod+d");
    assert_eq!(bs[2].command, "exec fuzzel --flag more");
}

#[test]
fn parses_tab_separated_binding_and_empty_config() {
    let bs = parse_sway_bindings("bindsym $mod+f\tfullscreen toggle");
    assert_eq!(bs.len(), 1);
    assert_eq!(bs[0].keys, "$mod+f");
    assert_eq!(bs[0].command, "fullscreen toggle");
    assert!(parse_sway_bindings("").is_empty());
    assert!(parse_sway_bindings("bindsym\nbindcode 1 kill").is_empty());
}

#[test]
fn continuation_at_end_of_file() {
    let bs = parse_sway_bindings("bindsym $mod+q \\");
    assert_eq!(bs.len(), 0);
    let bs = parse_sway_bindings("bindsym $mod+q kill \\");
    assert_eq!(bs.len(), 1);
    assert_eq!(bs[0].command, "kill");
}

#[test]
fn categorizes_commands() {
    assert_eq!(categorize(&b("a", "exec oblong snap left")), "Window Snapping");
    assert_eq!(categorize(&b("a", "EXEC /usr/bin/OBLONG SWITCH next")), "Window Switching");
    assert_eq!(categorize(&b("a", "floating enable, resize set width 50ppt")), "Window Snapping");
    assert_eq!(categorize(&b("a", "floating toggle")), "Window Snapping");
    assert_eq!(categorize(&b("a", "move container to output left")), "Displays");
    assert_eq!(categorize(&b("a", "focus left")), "Focus");
    assert_eq!(categorize(&b("a", "move left")), "Move Window");
    assert_eq!(categorize(&b("a", "workspace number 1")), "Workspaces");
    assert_eq!(categorize(&b("a", "move container to workspace number 2")), "Workspaces");
    assert_eq!(categorize(&b("a", "layout tabbed")), "Layout");
    assert_eq!(categorize(&b("a", "fullscreen toggle")), "Layout");
    assert_eq!(categorize(&b("a", "exec firefox")), "Apps & Commands");
    assert_eq!(categorize(&b("a", "KILL")), "Apps & Commands");
    assert_eq!(categorize(&b("a", "reload")), "Other");
}

#[test]
fn groups_in_category_order_without_empty_groups() {
    let groups = group_bindings(vec![
        b("$mod+Left", "exec oblong snap left"),
        b("$mod+h", "focus left"),
        b("$mod+q", "kill"),
        b("$mod+Right", "exec oblong snap right"),
    ]);
    assert_eq!(groups.len(), 3);
    assert_eq!(groups[0].name, "Window Snapping");
    assert_eq!(groups[0].bindings.len(), 2);
    assert_eq!(groups[0].bindings[0].keys, "$mod+Left");
    assert_eq!(groups[0].bindings[1].keys, "$mod+Right");
    assert_eq!(groups[1].name, "Focus");
    assert_eq!(groups[1].bindings[0].command, "focus left");
    assert_eq!(groups[2].name, "Apps & Commands");
    assert_eq!(groups[2].bindings[0].keys, "$mod+q");
    assert!(group_bindings(vec![]).is_empty());
}

#[test]
fn grouping_keeps_every_binding() {
    let input = vec![
        b("1", "reload"),
        b("2", "layout stacking"),
        b("3", "exec oblong switch prev"),
        b("4", "workspace number 4"),
        b("5", "move up"),
    ];
    let groups = group_bindings(input);
    let total: usize = groups.iter().map(|g| g.bindings.len()).sum();
    assert_eq!(total, 5);
    let names: Vec<&str> = groups.iter().map(|g| g.name.as_str()).collect();
    assert_eq!(names, vec!["Window Switching", "Move Window", "Workspaces", "Layout", "Other"]);
}

#[test]
fn labels_snap_and_switch_commands() {
    assert_eq!(label_for_command("exec /usr/bin/oblong snap left"), "Snap Left (½ → ⅓ → ⅔)");
    assert_eq!(label_for_command("exec oblong snap bottomright"), "Bottom Right (½ → ⅓ → ⅔)");
    assert_eq!(label_for_command("exec oblong snap center"), "Center (⅔ → ½ → ⅓)");
    assert_eq!(label_for_command("exec oblong snap restore"), "Restore Tiling");
    assert_eq!(label_for_command("exec oblong snap diagonal"), "Snap diagonal");
    assert_eq!(label_for_command("exec oblong switch next"), "Next Window");
    assert_eq!(label_for_command("exec oblong switch prev"), "Previous Window");
    assert_eq!(label_for_command("exec oblong switch sideways"), "Switch sideways");
}

#[test]
fn labels_other_commands() {
    assert_eq!(
        label_for_command("floating enable, resize set width 100ppt height 100ppt, move position 0 0"),
        "Maximize"
    );
    assert_eq!(
        label_for_command("floating enable, resize set width 50ppt height 100ppt, move position 0 0"),
        "Left Half"
    );
    assert_eq!(
        label_for_command("floating enable, resize set width 50ppt height 100ppt, move position 50ppt 0"),
        "Right Half"
    );
    assert_eq!(
        label_for_command("floating enable, resize set width 100ppt height 50ppt, move position 0 50ppt"),
        "Bottom Half"
    );
    assert_eq!(label_for_command("Floating Toggle"), "Toggle Floating");
    assert_eq!(label_for_command("move container to output right"), "Move to Next Display");
    assert_eq!(label_for_command("Focus Left"), "Focus Left");
    assert_eq!(label_for_command("move down"), "Move Down");
    assert_eq!(label_for_command("workspace number 3"), "Workspace 3");
    assert_eq!(label_for_command("move container to workspace number 4"), "Move to Workspace 4");
    assert_eq!(label_for_command("workspace back_and_forth"), "Last Workspace");
    assert_eq!(label_for_command("layout toggle split"), "Toggle Split");
    assert_eq!(label_for_command("Kill"), "Close Window");
    assert_eq!(label_for_command("exec $launcher"), "App Launcher");
    assert_eq!(label_for_command("exec $term"), "Terminal");
    assert_eq!(label_for_command("exec grim -g \"$(slurp)\" shot.png"), "Screenshot (region)");
    assert_eq!(label_for_command("exec grim shot.png"), "Screenshot");
    assert_eq!(label_for_command("exec swaymsg exit"), "Exit Sway");
    assert_eq!(label_for_command("exec Something-Else"), "exec Something-Else");
}

#[test]
fn config_paths_under_home() {
    assert_eq!(sway_config_path("/home/u"), "/home/u/.config/sway/config");
    assert_eq!(config_dir("/home/u"), "/home/u/.config/oblong");
    assert_eq!(config_path("/home/u"), "/home/u/.config/oblong/bindings.json");
    assert_eq!(sway_oblong_dir("/home/u"), "/home/u/.config/sway/oblong");
}

#[test]
fn include_is_added_once() {
    let first = ensure_include("bindsym a b\n\n").expect("include added");
    assert_eq!(
        first,
        "bindsym a b\n\n# ── Oblong window management ──\ninclude ~/.config/sway/oblong/*.conf\n"
    );
    assert_eq!(ensure_include(&first), None);
    assert_eq!(ensure_include("x\n   include ~/.config/sway/oblong/*.conf  \ny"), None);
}

#[test]
fn detects_keys_bound_in_both_places() {
    let content = "bindsym $mod+Left focus left\nbindsym $mod+x exec foo\nbindsym  $mod+y  kill\n";
    let managed = vec![b(" $mod+Left ", "exec oblong snap left"), b("$mod+y", "kill")];
    let refs: Vec<&Binding> = managed.iter().collect();
    let found = detect_conflicts(content, &refs);
    assert_eq!(found, vec!["$mod+Left".to_string(), "$mod+y".to_string()]);
    assert!(detect_conflicts("", &refs).is_empty());
}

#[test]
fn comments_out_conflicting_bindings_and_continuations() {
    let content = "bindsym $mod+Left focus left\nbindsym $mod+q \\\n  kill\nset $x y";
    let keys = vec!["$mod+Left".to_string(), "$mod+q".to_string()];
    let (out, n) = comment_out_conflicts(content, &keys);
    assert_eq!(n, 2);
    assert_eq!(
        out,
        "# [oblong] bindsym $mod+Left focus left\n# [oblong] bindsym $mod+q \\\n# [oblong]   kill\nset $x y"
    );
    let (same, zero) = comment_out_conflicts("bindsym $mod+Leftx a\n", &keys);
    assert_eq!(zero, 0);
    assert_eq!(same, "bindsym $mod+Leftx a");
}

#[test]
fn writes_managed_shortcuts() {
    let kept = b("$mod+Left", "exec oblong snap left");
    let blank = b("  ", "kill");
    let text = shortcuts_conf(&[&kept, &blank]);
    assert_eq!(
        text,
        "# ── Oblong — auto-generated, do not edit by hand ──\n\n# Snap Left (½ → ⅓ → ⅔)\nbindsym $mod+Left exec oblong snap left\n\n"
    );
}

#[test]
fn fixing_conflicts_twice_comments_nothing_more() {
    let content = "bindsym $mod+Left focus left\nbindsym $mod+x exec foo";
    let keys = vec!["$mod+Left".to_string()];
    let (once, n) = comment_out_conflicts(content, &keys);
    assert_eq!(n, 1);
    let (twice, m) = comment_out_conflicts(&once, &keys);
    assert_eq!(m, 0);
    assert_eq!(twice, once);
    let managed = vec![b("$mod+Left", "exec oblong snap left")];
    let refs: Vec<&Binding> = managed.iter().collect();
    assert!(detect_conflicts(&once, &refs).is_empty());
}
