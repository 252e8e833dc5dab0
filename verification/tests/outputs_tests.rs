use oblong::outputs::{
    config_from_sway, find_output_by_config_name, infer_relative_positions, mode_refreshes_for_resolution,
    outputs_conf, outputs_config_path, parse_res_height, parse_res_width, position_relations_list,
    resolve_positions, unique_modes, OutputConfig, OutputPosition, SwayMode, SwayOutput, SwayRect,
};

fn mode(width: i32, height: i32, refresh: i32) -> SwayMode {
    SwayMode { width, height, refresh }
}

fn output(name: &str, serial: &str, x: i32, y: i32, w: i32, h: i32) -> SwayOutput {
    SwayOutput {
        name: name.to_string(),
        make: " Dell ".to_string(),
        model: "U27".to_string(),
        serial: serial.to_string(),
        rect: SwayRect { x, y, width: w, height: h },
        modes: vec![mode(w, h, 59951), mode(1280, 720, 60000)],
        scale: "1".to_string(),
        transform: "normal".to_string(),
    }
}

fn conf(name: &str, resolution: Option<&str>, position: Option<OutputPosition>) -> OutputConfig {
    OutputConfig {
        name: name.to_string(),
        resolution: resolution.map(String::from),
        refresh: None,
        scale: None,
        transform: None,
        position,
    }
}

fn label(p: &Option<OutputPosition>) -> String {
    p.as_ref().map(|p| p.label()).unwrap_or_default()
}

#[test]
fn position_labels_and_relations() {
    assert_eq!(OutputPosition::Absolute { x: -5, y: 10 }.label(), "Position -5, 10");
    assert_eq!(OutputPosition::LeftOf("A".into()).label(), "Left of A");
    assert_eq!(OutputPosition::Below("B".into()).label(), "Below B");
    assert_eq!(OutputPosition::Above("X".into()).relation_index(), 2);
    assert_eq!(OutputPosition::Absolute { x: 0, y: 0 }.relation_index(), 4);
    assert_eq!(OutputPosition::RightOf("Y".into()).target_name(), Some("Y"));
    assert_eq!(OutputPosition::Absolute { x: 0, y: 0 }.target_name(), None);
    assert_eq!(position_relations_list(), vec!["Left of", "Right of", "Above", "Below"]);
    let p = OutputPosition::with_relation("Above", "Z".into()).unwrap();
    assert_eq!(p.label(), "Above Z");
    assert!(OutputPosition::with_relation("Behind", "Z".into()).is_none());
    assert_eq!(OutputPosition::with_relation_index(0, "Q".into()).unwrap().label(), "Left of Q");
    assert!(OutputPosition::with_relation_index(4, "Q".into()).is_none());
}

#[test]
fn output_identity_and_mode() {
    let o = output("DP-1", " S1 ", 0, 0, 2560, 1440);
    assert_eq!(o.description(), "Dell U27 (DP-1)");
    assert_eq!(o.stable_id(), "Dell U27 S1");
    let m = o.current_mode().unwrap();
    assert_eq!((m.width, m.height, m.refresh), (2560, 1440, 59951));
    let mut odd = output("HDMI-A-1", "", 0, 0, 800, 600);
    odd.modes = vec![mode(1024, 768, 60000)];
    assert!(odd.current_mode().is_none());
    assert_eq!(odd.stable_id(), "Dell U27");
}

#[test]
fn config_from_current_state() {
    let mut o = output("DP-1", "S1", 10, 20, 2560, 1440);
    o.scale = "1.5".into();
    let c = config_from_sway(&o);
    assert_eq!(c.name, "Dell U27 S1");
    assert_eq!(c.resolution.as_deref(), Some("2560x1440"));
    assert_eq!(c.refresh.as_deref(), Some("59.951"));
    assert_eq!(c.scale.as_deref(), Some("1.5"));
    assert_eq!(c.transform.as_deref(), Some("normal"));
    assert_eq!(label(&c.position), "Position 10, 20");
    let mut slow = output("DP-2", "S2", 0, 0, 640, 480);
    slow.modes = vec![mode(640, 480, 5)];
    assert_eq!(config_from_sway(&slow).refresh.as_deref(), Some("0.005"));
    slow.modes = vec![];
    let none = config_from_sway(&slow);
    assert!(none.resolution.is_none() && none.refresh.is_none());
}

#[test]
fn finds_output_by_stable_id() {
    let outs = vec![output("DP-1", "S1", 0, 0, 100, 100), output("DP-2", "S2", 100, 0, 100, 100)];
    assert_eq!(find_output_by_config_name(&outs, "Dell U27 S2"), Some(1));
    assert_eq!(find_output_by_config_name(&outs, "DP-2"), None);
}

#[test]
fn infers_positions_relative_to_leftmost_output() {
    let outs = vec![
        output("B", "SB", 2560, 0, 1920, 1080),
        output("A", "SA", 0, 0, 2560, 1440),
        output("C", "SC", 0, 1440, 1920, 1080),
        output("D", "SD", -1920, 100, 1920, 1080),
        output("E", "SE", 0, -1080, 1920, 1080),
    ];
    let mut cfgs: Vec<OutputConfig> = outs.iter().map(config_from_sway).collect();
    infer_relative_positions(&mut cfgs, &outs);
    // The anchor is the leftmost, then topmost: D.
    assert_eq!(label(&cfgs[3].position), "Position -1920, 100");
    assert_eq!(label(&cfgs[1].position), "Right of Dell U27 SD");
    assert_eq!(label(&cfgs[0].position), "Right of Dell U27 SD");
}

#[test]
fn infers_above_below_left_right() {
    let outs = vec![
        output("A", "SA", 0, 0, 2560, 1440),
        output("B", "SB", 2560, 0, 1920, 1080),
        output("C", "SC", 0, 1440, 1920, 1080),
        output("E", "SE", 100, -1080, 1920, 1080),
    ];
    let mut cfgs: Vec<OutputConfig> = outs.iter().map(config_from_sway).collect();
    // E is the topmost at x 100, so A (x 0) stays the anchor.
    infer_relative_positions(&mut cfgs, &outs);
    assert_eq!(label(&cfgs[0].position), "Position 0, 0");
    assert_eq!(label(&cfgs[1].position), "Right of Dell U27 SA");
    assert_eq!(label(&cfgs[2].position), "Below Dell U27 SA");
    assert_eq!(label(&cfgs[3].position), "Above Dell U27 SA");

    let left = vec![output("A", "SA", 0, 0, 2560, 1440), output("L", "SL", 10, 100, 1920, 1080)];
    let mut cfgs: Vec<OutputConfig> = left.iter().map(config_from_sway).collect();
    cfgs[1].position = Some(OutputPosition::Absolute { x: -1920, y: 100 });
    infer_relative_positions(&mut cfgs, &left);
    assert_eq!(label(&cfgs[0].position), "Right of Dell U27 SL");
}

#[test]
fn inference_needs_two_outputs_and_a_known_anchor() {
    let outs = vec![output("A", "SA", 0, 0, 100, 100)];
    let mut one: Vec<OutputConfig> = outs.iter().map(config_from_sway).collect();
    infer_relative_positions(&mut one, &outs);
    assert_eq!(label(&one[0].position), "Position 0, 0");
    let mut unknown = vec![
        conf("X", None, Some(OutputPosition::Absolute { x: 0, y: 0 })),
        conf("Y", None, Some(OutputPosition::Absolute { x: 5000, y: 0 })),
    ];
    infer_relative_positions(&mut unknown, &outs);
    assert_eq!(label(&unknown[1].position), "Position 5000, 0");
}

#[test]
fn resolves_relative_positions() {
    let cfgs = vec![
        conf("A", Some("2560x1440"), Some(OutputPosition::Absolute { x: 0, y: 0 })),
        conf("C", None, Some(OutputPosition::Below("B".into()))),
        conf("B", Some("1920x1080"), Some(OutputPosition::RightOf("A".into()))),
        conf("D", Some("1280x1024"), Some(OutputPosition::LeftOf("A".into()))),
        conf("E", None, Some(OutputPosition::Above("A".into()))),
        conf("F", None, Some(OutputPosition::RightOf("nobody".into()))),
        conf("G", None, None),
    ];
    let r = resolve_positions(&cfgs);
    assert_eq!(
        r,
        vec![
            Some((0, 0)),
            Some((2560, 1080)),
            Some((2560, 0)),
            Some((-1280, 0)),
            Some((0, -1080)),
            None,
            None,
        ]
    );
}

#[test]
fn first_output_is_placed_at_origin_without_absolute_positions() {
    let cfgs = vec![
        conf("A", Some("800x600"), Some(OutputPosition::LeftOf("B".into()))),
        conf("B", Some("bad"), Some(OutputPosition::RightOf("A".into()))),
    ];
    assert_eq!(resolve_positions(&cfgs), vec![Some((0, 0)), Some((800, 0))]);
    assert!(resolve_positions(&[]).is_empty());
}

#[test]
fn resolution_width_and_height_with_fallbacks() {
    assert_eq!(parse_res_width(&Some("2560x1440".into())), 2560);
    assert_eq!(parse_res_height(&Some("2560x1440".into())), 1440);
    assert_eq!(parse_res_width(&None), 1920);
    assert_eq!(parse_res_height(&None), 1080);
    assert_eq!(parse_res_width(&Some("wide".into())), 1920);
    assert_eq!(parse_res_height(&Some("1280".into())), 1080);
    assert_eq!(parse_res_height(&Some("1280x720x3".into())), 720);
}

#[test]
fn writes_output_blocks() {
    let cfgs = vec![
        OutputConfig {
            name: "Dell U27 SA".into(),
            resolution: Some("2560x1440".into()),
            refresh: Some("59.951".into()),
            scale: Some("1.5".into()),
            transform: Some("normal".into()),
            position: Some(OutputPosition::Absolute { x: 0, y: 0 }),
        },
        OutputConfig {
            name: "B".into(),
            resolution: Some("1920x1080".into()),
            refresh: None,
            scale: None,
            transform: Some("90".into()),
            position: Some(OutputPosition::RightOf("Dell U27 SA".into())),
        },
        conf("C", None, None),
    ];
    assert_eq!(
        outputs_conf(&cfgs),
        "# ── Oblong outputs — auto-generated, do not edit by hand ──\n\n\
         output \"Dell U27 SA\" {\n    mode 2560x1440@59.951Hz\n    scale 1.5\n    position 0 0\n}\n\n\
         output \"B\" {\n    mode 1920x1080\n    transform 90\n    position 2560 0\n}\n\n\
         output \"C\" {\n}\n\n"
    );
}

#[test]
fn modes_and_refresh_rates() {
    let mut o = output("DP-1", "S", 0, 0, 1920, 1080);
    o.modes = vec![mode(1920, 1080, 50000), mode(1280, 720, 60000), mode(1920, 1080, 60000), mode(1920, 1080, 59940)];
    assert_eq!(unique_modes(&o), vec!["1920x1080", "1280x720"]);
    assert_eq!(mode_refreshes_for_resolution(&o, "1920x1080"), vec![60000, 59940, 50000]);
    assert!(mode_refreshes_for_resolution(&o, "800x600").is_empty());
    assert!(mode_refreshes_for_resolution(&o, "1920x1080x1").is_empty());
    assert!(mode_refreshes_for_resolution(&o, "bad").is_empty());
}

#[test]
fn outputs_path_under_home() {
    assert_eq!(outputs_config_path("/home/u"), "/home/u/.config/oblong/outputs.json");
}
