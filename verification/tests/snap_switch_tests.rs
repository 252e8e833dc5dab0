use oblong::snap::{
    edge_cycle, parse_snap_state, snap, snap_state_text, snap_would_overflow, SnapState, CYCLE_TIMEOUT_MS,
};
use oblong::switcher::{
    check_switch_direction, collect_windows_mru, parse_switch_state, switch, switch_state_text,
    switch_would_panic, windows_mru, Node, SwitchState,
};

fn state(direction: &str, step: usize, timestamp: u64) -> Option<SnapState> {
    Some(SnapState { direction: direction.to_string(), step, timestamp })
}

#[test]
fn first_snap_takes_half() {
    let plan = snap("left", None, 1000).unwrap();
    assert_eq!(plan.step, 0);
    assert_eq!(plan.command, "floating enable, resize set width 50ppt height 100ppt, move position 0 0");
    let plan = snap("bottomright", None, 5).unwrap();
    assert_eq!(plan.command, "floating enable, resize set width 50ppt height 50ppt, move position 50ppt 50ppt");
}

#[test]
fn repeated_snaps_cycle_half_third_two_thirds() {
    let p1 = snap("right", state("right", 0, 1000), 2000).unwrap();
    assert_eq!(p1.step, 1);
    assert_eq!(p1.command, "floating enable, resize set width 33ppt height 100ppt, move position 67ppt 0");
    let p2 = snap("right", state("right", 1, 2000), 2100).unwrap();
    assert_eq!(p2.step, 2);
    assert_eq!(p2.command, "floating enable, resize set width 67ppt height 100ppt, move position 33ppt 0");
    let p3 = snap("right", state("right", 2, 2100), 2200).unwrap();
    assert_eq!(p3.step, 0);
    assert_eq!(p3.command, "floating enable, resize set width 50ppt height 100ppt, move position 50ppt 0");
}

#[test]
fn snap_cycle_resets_after_timeout_or_other_direction() {
    let late = snap("up", state("up", 0, 1000), 1000 + CYCLE_TIMEOUT_MS).unwrap();
    assert_eq!(late.step, 0);
    let just_in_time = snap("up", state("up", 0, 1000), 1000 + CYCLE_TIMEOUT_MS - 1).unwrap();
    assert_eq!(just_in_time.step, 1);
    let other = snap("up", state("down", 0, 1000), 1001).unwrap();
    assert_eq!(other.step, 0);
    // A clock that went backwards counts as no time elapsed.
    let back = snap("up", state("up", 1, 5000), 10).unwrap();
    assert_eq!(back.step, 2);
}

#[test]
fn center_maximize_restore() {
    let c = snap("center", None, 0).unwrap();
    assert_eq!(c.command, "floating enable, resize set width 60ppt height 80ppt, move position center");
    let c2 = snap("center", state("center", 0, 0), 10).unwrap();
    assert_eq!(c2.command, "floating enable, resize set width 50ppt height 70ppt, move position center");
    let m = snap("maximize", state("maximize", 0, 0), 10).unwrap();
    assert_eq!(m.step, 0);
    assert_eq!(m.command, "floating enable, resize set width 100ppt height 100ppt, move position 0 0");
    let r = snap("restore", None, 10).unwrap();
    assert_eq!(r.step, 0);
    assert_eq!(r.command, "floating disable");
}

#[test]
fn unknown_snap_direction_is_an_error() {
    let e = snap("sideways", None, 0).unwrap_err();
    assert_eq!(
        e,
        "Unknown direction: sideways. Use: left, right, up, down, topleft, topright, bottomleft, bottomright, center, maximize, restore"
    );
    assert!(snap("Left", None, 0).is_err());
}

#[test]
fn edge_cycles() {
    let r = edge_cycle("right");
    assert_eq!(r.len(), 3);
    assert_eq!((r[1].w, r[1].h, r[1].x, r[1].y), ("33ppt", "100ppt", "67ppt", "0"));
    let d = edge_cycle("down");
    assert_eq!((d[2].w, d[2].h, d[2].x, d[2].y), ("100ppt", "67ppt", "0", "33ppt"));
    assert!(edge_cycle("maximize").is_empty());
    assert!(edge_cycle("nope").is_empty());
}

#[test]
fn snap_state_file_round_trip() {
    let text = snap_state_text("left", 2, 12345);
    assert_eq!(text, "left\n2\n12345\n");
    let s = parse_snap_state(&text).unwrap();
    assert_eq!(s.direction, "left");
    assert_eq!(s.step, 2);
    assert_eq!(s.timestamp, 12345);
    assert!(parse_snap_state("left\nx\n1").is_none());
    assert!(parse_snap_state("left\n1").is_none());
    let crlf = parse_snap_state("up\r\n+1\r\n7\r\n").unwrap();
    assert_eq!((crlf.direction.as_str(), crlf.step, crlf.timestamp), ("up", 1, 7));
}

fn ids(v: &[i64]) -> Vec<i64> {
    v.to_vec()
}

#[test]
fn fresh_switch_goes_to_second_or_last_window() {
    let p = switch("next", &ids(&[10, 20, 30]), None, 0).unwrap().unwrap();
    assert_eq!(p.window_ids, vec![10, 20, 30]);
    assert_eq!(p.index, 1);
    assert_eq!(p.target, 20);
    let q = switch("prev", &ids(&[10, 20, 30]), None, 0).unwrap().unwrap();
    assert_eq!(q.index, 2);
    assert_eq!(q.target, 30);
}

#[test]
fn switch_continues_frozen_cycle() {
    let saved = SwitchState { window_ids: vec![10, 20, 30], index: 1, timestamp: 1000 };
    let p = switch("next", &ids(&[20, 10, 30]), Some(saved), 1200).unwrap().unwrap();
    assert_eq!(p.window_ids, vec![10, 20, 30]);
    assert_eq!(p.index, 2);
    assert_eq!(p.target, 30);
    let saved = SwitchState { window_ids: vec![10, 20, 30], index: 2, timestamp: 1000 };
    let wrap = switch("next", &ids(&[20, 10, 30]), Some(saved), 1200).unwrap().unwrap();
    assert_eq!(wrap.index, 0);
    assert_eq!(wrap.target, 10);
    let saved = SwitchState { window_ids: vec![10, 20, 30], index: 0, timestamp: 1000 };
    let back = switch("prev", &ids(&[20, 10, 30]), Some(saved), 1200).unwrap().unwrap();
    assert_eq!(back.index, 2);
    assert_eq!(back.target, 30);
}

#[test]
fn switch_starts_over_when_windows_changed_or_late() {
    let saved = SwitchState { window_ids: vec![10, 99], index: 0, timestamp: 1000 };
    let p = switch("next", &ids(&[10, 20]), Some(saved), 1100).unwrap().unwrap();
    assert_eq!(p.window_ids, vec![10, 20]);
    assert_eq!(p.index, 1);
    let saved = SwitchState { window_ids: vec![10, 20], index: 0, timestamp: 1000 };
    let late = switch("prev", &ids(&[20, 10]), Some(saved), 2500).unwrap().unwrap();
    assert_eq!(late.window_ids, vec![20, 10]);
    assert_eq!(late.index, 1);
    assert_eq!(late.target, 10);
    let empty = SwitchState { window_ids: vec![], index: 0, timestamp: 1000 };
    let fresh = switch("next", &ids(&[1, 2]), Some(empty), 1000).unwrap().unwrap();
    assert_eq!(fresh.target, 2);
}

#[test]
fn switch_with_one_window_does_nothing() {
    assert!(switch("next", &ids(&[5]), None, 0).unwrap().is_none());
    assert!(switch("prev", &ids(&[]), None, 0).unwrap().is_none());
}

#[test]
fn unknown_switch_direction_is_an_error() {
    assert_eq!(switch("up", &ids(&[1, 2]), None, 0).unwrap_err(), "Unknown direction: up. Use: next, prev");
    assert_eq!(check_switch_direction("NEXT").unwrap_err(), "Unknown direction: NEXT. Use: next, prev");
    assert!(check_switch_direction("prev").is_ok());
}

#[test]
fn switch_state_file_round_trip() {
    let text = switch_state_text(&ids(&[1, -2, 3]), 1, 99);
    assert_eq!(text, "1,-2,3\n1\n99\n");
    let s = parse_switch_state(&text).unwrap();
    assert_eq!(s.window_ids, vec![1, -2, 3]);
    assert_eq!(s.index, 1);
    assert_eq!(s.timestamp, 99);
    let loose = parse_switch_state("1, x ,3\n0\n5").unwrap();
    assert_eq!(loose.window_ids, vec![1, 3]);
    assert!(parse_switch_state("1,2\nnope\n5").is_none());
    assert_eq!(switch_state_text(&ids(&[]), 0, 7), "\n0\n7\n");
}

fn leaf(id: i64, kind: &str, name: Option<&str>, app_id: Option<&str>) -> Node {
    Node {
        id,
        name: name.map(String::from),
        app_id: app_id.map(String::from),
        node_type: Some(kind.to_string()),
        focused: false,
        focus: vec![],
        nodes: vec![],
        floating_nodes: vec![],
    }
}

#[test]
fn windows_in_most_recently_used_order() {
    let ws = Node {
        id: 2,
        name: Some("1".into()),
        app_id: None,
        node_type: Some("workspace".into()),
        focused: false,
        focus: vec![4, 5],
        nodes: vec![
            leaf(3, "con", Some("a"), None),
            leaf(4, "con", None, Some("b")),
            leaf(6, "con", Some(""), None),
        ],
        floating_nodes: vec![leaf(5, "floating_con", Some("c"), None)],
    };
    let root = Node {
        id: 1,
        name: Some("root".into()),
        app_id: None,
        node_type: Some("root".into()),
        focused: false,
        focus: vec![2, 77],
        nodes: vec![ws],
        floating_nodes: vec![],
    };
    assert_eq!(windows_mru(&root), vec![4, 5, 3]);
    let mut acc = vec![9];
    collect_windows_mru(&root, &mut acc);
    assert_eq!(acc, vec![9, 4, 5, 3]);
    let lone = leaf(8, "workspace", Some("w"), None);
    assert!(windows_mru(&lone).is_empty());
}

#[test]
fn saved_steps_that_cannot_be_continued() {
    assert!(snap_would_overflow("left", &state("left", usize::MAX, 0), 10));
    assert!(!snap_would_overflow("left", &state("left", usize::MAX, 0), 5000));
    assert!(!snap_would_overflow("maximize", &state("maximize", usize::MAX, 0), 10));
    assert!(!snap_would_overflow("left", &state("right", usize::MAX, 0), 10));
    assert!(!snap_would_overflow("left", &state("left", 2, 0), 10));
    let at_max = SwitchState { window_ids: vec![1, 2], index: usize::MAX, timestamp: 0 };
    assert!(switch_would_panic("next", &ids(&[1, 2]), &Some(at_max), 10));
    let beyond = SwitchState { window_ids: vec![1, 2, 3], index: 5, timestamp: 0 };
    assert!(switch_would_panic("prev", &ids(&[1, 2, 3]), &Some(beyond), 10));
    let at_end = SwitchState { window_ids: vec![1, 2, 3], index: 3, timestamp: 0 };
    assert!(!switch_would_panic("prev", &ids(&[1, 2, 3]), &Some(at_end), 10));
    let p = switch("prev", &ids(&[1, 2, 3]), Some(SwitchState { window_ids: vec![1, 2, 3], index: 3, timestamp: 0 }), 10)
        .unwrap()
        .unwrap();
    assert_eq!(p.target, 3);
    assert!(!switch_would_panic("next", &ids(&[1]), &None, 10));
}
