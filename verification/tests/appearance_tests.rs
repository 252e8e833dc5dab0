use oblong::appearance::{
    appearance_conf, appearance_config_path, comment_out_appearance_conflicts, hex_would_panic, parse_font_list,
    parse_hex_rgb, rgb_hex, toggle_selection, AppearanceConfig, BorderStyle, ColorField, ColorSet,
    ColorTarget, WindowColors,
};

/// The text the appearance file should hold, built the way the format
/// strings of the generator read.
fn expected_appearance(c: &AppearanceConfig) -> String {
    let mut out = String::from("# ── Oblong appearance — auto-generated, do not edit by hand ──\n\n");
    out.push_str(&format!("font pango:{} {}\n\n", c.font_family, c.font_size));
    out.push_str(&format!("gaps inner {}\n", c.gaps_inner));
    out.push_str(&format!("gaps outer {}\n\n", c.gaps_outer));
    match c.border_style {
        BorderStyle::NoBorder => {
            out.push_str("default_border none\n");
            out.push_str("default_floating_border none\n\n");
        }
        style => {
            out.push_str(&format!("default_border {} {}\n", style.to_string(), c.border_width));
            out.push_str(&format!("default_floating_border {} {}\n\n", style.to_string(), c.border_width));
        }
    }
    let line = |class: &str, cs: &ColorSet| {
        format!(
            "client.{:<20} {} {} {} {} {}\n",
            class, cs.border, cs.background, cs.text, cs.indicator, cs.child_border
        )
    };
    out.push_str(&line("focused", &c.colors.focused));
    out.push_str(&line("focused_inactive", &c.colors.focused_inactive));
    out.push_str(&line("unfocused", &c.colors.unfocused));
    out.push_str(&line("urgent", &c.colors.urgent));
    out
}

#[test]
fn default_appearance_values() {
    let c = AppearanceConfig::default();
    assert_eq!(c.font_family, "Noto Sans");
    assert_eq!((c.font_size, c.gaps_inner, c.gaps_outer, c.border_width), (11, 10, 5, 2));
    assert_eq!(c.border_style, BorderStyle::Pixel);
    assert_eq!(c.colors.focused.border, "#88bb88");
    assert_eq!(c.colors.focused_inactive.background, "#2d2d2d");
    assert_eq!(c.colors.unfocused.border, "#333333");
    assert_eq!(c.colors.unfocused.background, "#1d1d1d");
    assert_eq!(c.colors.urgent.text, "#ffffff");
    assert_eq!(c.colors.urgent.child_border, "#cc8888");
}

#[test]
fn appearance_file_for_defaults() {
    let c = AppearanceConfig::default();
    let text = appearance_conf(&c);
    assert_eq!(text, expected_appearance(&c));
    assert!(text.contains("client.focused              #88bb88 #2d2d2d #ffffff #88bb88 #88bb88\n"));
    assert!(text.contains("default_border pixel 2\n"));
}

#[test]
fn appearance_file_without_borders_and_long_class_names() {
    let mut c = AppearanceConfig::default();
    c.border_style = BorderStyle::NoBorder;
    c.font_family = "DejaVu Sans Mono".into();
    c.font_size = 9;
    let text = appearance_conf(&c);
    assert_eq!(text, expected_appearance(&c));
    assert!(text.contains("default_border none\ndefault_floating_border none\n\n"));
    c.border_style = BorderStyle::Normal;
    c.border_width = 0;
    assert_eq!(appearance_conf(&c), expected_appearance(&c));
}

#[test]
fn border_styles_by_name() {
    assert_eq!(BorderStyle::from_str("PIXEL"), Some(BorderStyle::Pixel));
    assert_eq!(BorderStyle::from_str("Normal"), Some(BorderStyle::Normal));
    assert_eq!(BorderStyle::from_str("none"), Some(BorderStyle::NoBorder));
    assert_eq!(BorderStyle::from_str("thick"), None);
    assert_eq!(BorderStyle::from_str(""), None);
    assert_eq!(BorderStyle::NoBorder.to_string(), "none");
    let all = BorderStyle::all();
    assert_eq!(all, vec![BorderStyle::Pixel, BorderStyle::Normal, BorderStyle::NoBorder]);
    for s in all {
        assert_eq!(BorderStyle::from_str(&s.to_string()), Some(s));
    }
}

#[test]
fn hex_colors_parse() {
    assert_eq!(parse_hex_rgb("#1a2B3c"), Some((0x1a, 0x2b, 0x3c)));
    assert_eq!(parse_hex_rgb("1a2b3c"), Some((0x1a, 0x2b, 0x3c)));
    assert_eq!(parse_hex_rgb("#12345"), None);
    assert_eq!(parse_hex_rgb("#12345g"), None);
    assert_eq!(parse_hex_rgb("#1234567"), None);
    assert_eq!(parse_hex_rgb(""), None);
    assert_eq!(parse_hex_rgb("#+f+0+1"), Some((15, 0, 1)));
    assert_eq!(parse_hex_rgb("#-f0000"), None);
}

#[test]
fn hex_colors_round_trip() {
    assert_eq!(rgb_hex(255, 0, 16), "#ff0010");
    for (r, g, b) in [(0u8, 0u8, 0u8), (1, 128, 254), (255, 255, 255)] {
        assert_eq!(parse_hex_rgb(&rgb_hex(r, g, b)), Some((r, g, b)));
    }
}

#[test]
fn colors_by_class_and_field() {
    let mut colors = WindowColors::default();
    assert_eq!(colors.get_color_hex(ColorTarget::Urgent, ColorField::Border), "#cc8888");
    colors.set_color(ColorTarget::Unfocused, ColorField::Indicator, "#010203".into());
    assert_eq!(colors.get_color_hex(ColorTarget::Unfocused, ColorField::Indicator), "#010203");
    assert_eq!(colors.unfocused.indicator, "#010203");
    assert_eq!(colors.unfocused.border, "#333333");
    assert_eq!(colors.focused.indicator, "#88bb88");
    let set = ColorSet::new("#1", "#2", "#3", "#4", "#5");
    assert_eq!(set.get(ColorField::ChildBorder), "#5");
    assert_eq!(set.get(ColorField::Text), "#3");
}

#[test]
fn swatch_selection_toggles() {
    let key = (ColorTarget::Focused, ColorField::Text);
    let other = (ColorTarget::Urgent, ColorField::Border);
    assert_eq!(toggle_selection(None, key), Some(key));
    assert_eq!(toggle_selection(Some(key), key), None);
    assert_eq!(toggle_selection(Some(other), key), Some(key));
}

#[test]
fn appearance_directives_of_main_config_are_commented_out() {
    let content = "font pango:Foo 10\n# gaps inner 3\n  gaps inner 4\nclient.focused #fff\nbindsym a b";
    let out = comment_out_appearance_conflicts(content).unwrap();
    assert_eq!(
        out,
        "# [oblong] font pango:Foo 10\n# gaps inner 3\n# [oblong]   gaps inner 4\n# [oblong] client.focused #fff\nbindsym a b"
    );
    assert_eq!(comment_out_appearance_conflicts("bindsym a b\nfontsize 3\n"), None);
}

#[test]
fn font_families_sorted_once() {
    let text = "DejaVu Sans,DejaVu Sans Light\nNoto Sans\n  \nB, A ,\nNoto Sans\n";
    assert_eq!(
        parse_font_list(text),
        vec!["A", "B", "DejaVu Sans", "DejaVu Sans Light", "Noto Sans"]
    );
    assert!(parse_font_list("").is_empty());
}

#[test]
fn appearance_path_under_home() {
    assert_eq!(appearance_config_path("/home/u"), "/home/u/.config/oblong/appearance.json");
}

#[test]
fn colors_cut_inside_a_character_cannot_be_read() {
    assert!(!hex_would_panic("#123456"));
    assert!(!hex_would_panic("#é1234"));
    assert_eq!(parse_hex_rgb("#é1234"), None);
    assert!(hex_would_panic("#1é234"));
    assert!(hex_would_panic("#123é5"));
    assert!(!hex_would_panic("#zz3é5"));
    assert_eq!(parse_hex_rgb("#zz3é5"), None);
    assert!(!hex_would_panic("#12345é"));
}

#[test]
fn commented_appearance_directives_stay_commented() {
    let once = comment_out_appearance_conflicts("gaps inner 4
font pango:X 9").unwrap();
    assert_eq!(comment_out_appearance_conflicts(&once), None);
}
