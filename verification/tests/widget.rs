use std::time::{Duration, Instant};

use iced_context_menu::context_menu::nav::NavKey;
use iced_context_menu::menu::{MenuItemId, MenuNode, MenuSpec};
use iced_context_menu::widget::{
    apply_overlay_event, build_panels, ensure_focus_len, find_submenu, first_focusable,
    handle_key, hover_delay_elapsed, is_focusable, label_for_row, move_focus,
    panel_rows_to_dummy_items, poll_hover, promote_hover, resolve_nodes_at_path, rows_for_nodes,
    same_path, should_open_hover, clamped_hover_delay, MenuItem, MenuSession, OverlayEvent, PanelModel, RowKind,
    RowModel, SubmenuOpenMode,
};

fn nested_tree() -> Vec<MenuNode> {
    vec![
        MenuNode::Action { id: 1_u64.into(), title: "Copy".into(), enabled: true },
        MenuNode::Separator,
        MenuNode::Submenu {
            title: "More".into(),
            children: vec![
                MenuNode::Action { id: 2_u64.into(), title: "Rename".into(), enabled: true },
                MenuNode::Submenu {
                    title: "Share".into(),
                    children: vec![MenuNode::Action {
                        id: 3_u64.into(),
                        title: "Copy link".into(),
                        enabled: true,
                    }],
                },
            ],
        },
    ]
}

#[test]
fn builds_panel_per_open_depth() {
    let panels = build_panels(&nested_tree(), &[0, 0]);
    assert_eq!(panels.len(), 3);
    assert_eq!(panels[1].path, vec![0]);
    assert_eq!(panels[2].path, vec![0, 0]);
}

#[test]
fn focus_skips_inert_rows() {
    let panel = PanelModel {
        path: vec![],
        rows: vec![
            RowModel { kind: RowKind::Separator },
            RowModel { kind: RowKind::Disabled },
            RowModel { kind: RowKind::Action(1_u64.into()) },
        ],
    };
    let mut focus = 0;
    move_focus(&panel, &mut focus, 1);
    assert_eq!(focus, 2);
}

#[test]
fn open_mode_policy_matrix() {
    assert!(matches!(SubmenuOpenMode::Hover, SubmenuOpenMode::Hover));
    assert!(matches!(SubmenuOpenMode::Click, SubmenuOpenMode::Click));
    assert!(matches!(SubmenuOpenMode::HoverAndClick, SubmenuOpenMode::HoverAndClick));
}

#[test]
fn hover_delay_gate_works() {
    let started = Instant::now();
    let now_before = started + Duration::from_millis(40);
    let now_after = started + Duration::from_millis(180);

    assert!(!should_open_hover(Some(started), now_before, 120));
    assert!(should_open_hover(Some(started), now_after, 120));
    assert!(!should_open_hover(None, now_after, 120));
}

fn row(kind: RowKind) -> RowModel {
    RowModel { kind }
}

#[test]
fn rows_carry_ids_and_submenu_ranks() {
    let tree = nested_tree();
    let rows = rows_for_nodes(&tree);
    assert_eq!(rows.len(), 3);
    assert_eq!(rows[0].kind, RowKind::Action(MenuItemId(1)));
    assert_eq!(rows[1].kind, RowKind::Separator);
    assert_eq!(rows[2].kind, RowKind::Submenu { child_index: 0 });
    let spec = MenuSpec::new()
        .disabled(MenuItemId(7), "Off".to_string())
        .submenu("A".to_string(), vec![])
        .submenu("B".to_string(), vec![]);
    let rows = rows_for_nodes(spec.nodes());
    assert_eq!(rows[0].kind, RowKind::Disabled);
    assert_eq!(rows[2].kind, RowKind::Submenu { child_index: 1 });
}

#[test]
fn build_panels_stops_at_a_missing_submenu() {
    let panels = build_panels(&nested_tree(), &[0, 5, 0]);
    assert_eq!(panels.len(), 2);
    assert_eq!(panels[1].path, vec![0]);
    assert_eq!(panels[1].rows.len(), 2);
    let panels = build_panels(&nested_tree(), &[]);
    assert_eq!(panels.len(), 1);
    assert!(panels[0].path.is_empty());
}

#[test]
fn resolve_and_find_submenu_follow_submenu_ranks() {
    let tree = nested_tree();
    assert_eq!(find_submenu(&tree, 0).map(|c| c.len()), Some(2));
    assert!(find_submenu(&tree, 1).is_none());
    assert_eq!(resolve_nodes_at_path(&tree, &[0, 0]).len(), 1);
    // A path that names no submenu stops at the last panel it reached.
    assert_eq!(resolve_nodes_at_path(&tree, &[0, 3]).len(), 2);
}

#[test]
fn labels_come_from_the_panel_nodes() {
    let tree = nested_tree();
    assert_eq!(label_for_row(&tree, &[], &row(RowKind::Action(MenuItemId(1)))), Some("Copy".to_string()));
    assert_eq!(label_for_row(&tree, &[], &row(RowKind::Submenu { child_index: 0 })), Some("More".to_string()));
    assert_eq!(label_for_row(&tree, &[0], &row(RowKind::Submenu { child_index: 0 })), Some("Share".to_string()));
    assert_eq!(label_for_row(&tree, &[], &row(RowKind::Disabled)), None);
    assert_eq!(label_for_row(&tree, &[], &row(RowKind::Submenu { child_index: 1 })), None);
}

#[test]
fn dummy_items_stand_in_for_rows() {
    let panel = PanelModel {
        path: vec![],
        rows: vec![
            row(RowKind::Action(MenuItemId(42))),
            row(RowKind::Submenu { child_index: 3 }),
            row(RowKind::Disabled),
            row(RowKind::Separator),
        ],
    };
    let items = panel_rows_to_dummy_items(&panel);
    assert_eq!(items.len(), 4);
    match &items[0] {
        MenuItem::Action { label, message: OverlayEvent::Select(id) } => {
            assert_eq!(label, "42");
            assert_eq!(*id, MenuItemId(42));
        }
        _ => panic!("expected an action"),
    }
    match &items[1] {
        MenuItem::Action { label, message: OverlayEvent::Inert } => assert_eq!(label, "submenu-3"),
        _ => panic!("expected a submenu stand-in"),
    }
    assert!(matches!(&items[2], MenuItem::Disabled { label } if label == "disabled"));
    assert!(matches!(&items[3], MenuItem::Separator));
}

#[test]
fn focus_helpers() {
    let panel = PanelModel {
        path: vec![],
        rows: vec![row(RowKind::Separator), row(RowKind::Action(MenuItemId(1))), row(RowKind::Disabled)],
    };
    assert!(!is_focusable(&panel, 0));
    assert!(is_focusable(&panel, 1));
    assert!(!is_focusable(&panel, 9));
    assert_eq!(first_focusable(&panel), Some(1));
    let mut focus = 1;
    move_focus(&panel, &mut focus, 1);
    assert_eq!(focus, 1);
    let inert = PanelModel { path: vec![], rows: vec![row(RowKind::Separator)] };
    assert_eq!(first_focusable(&inert), None);
    let mut focus = 0;
    move_focus(&inert, &mut focus, -1);
    assert_eq!(focus, 0);
}

#[test]
fn ensure_focus_len_settles_every_panel() {
    let a = PanelModel { path: vec![], rows: vec![row(RowKind::Separator), row(RowKind::Action(MenuItemId(1)))] };
    let b = PanelModel { path: vec![0], rows: vec![row(RowKind::Disabled)] };
    let mut focused = vec![];
    ensure_focus_len(&[a.clone(), b.clone()], &mut focused);
    assert_eq!(focused, vec![1, 0]);
    let mut focused = vec![1, 0, 4];
    ensure_focus_len(&[a], &mut focused);
    assert_eq!(focused, vec![1]);
}

#[test]
fn hover_gate_and_promotion() {
    assert!(!hover_delay_elapsed(None, 0));
    assert!(hover_delay_elapsed(Some(120), 120));
    assert!(!hover_delay_elapsed(Some(119), 120));
    let mut open = vec![];
    assert!(promote_hover(&mut open, &[0], false));
    assert!(open.is_empty());
    assert!(!promote_hover(&mut open, &[0], true));
    assert_eq!(open, vec![0]);
    assert!(same_path(&[1, 2], &[1, 2]));
    assert!(!same_path(&[1], &[1, 2]));
}

#[test]
fn poll_hover_promotes_without_extra_cursor_move() {
    let mut open_path = Vec::new();
    let mut hover_path = vec![0usize];
    let mut hover_started_at = Some(Instant::now() - Duration::from_millis(300));
    let pending = poll_hover(
        None,
        Instant::now(),
        &mut open_path,
        &mut hover_path,
        &mut hover_started_at,
        SubmenuOpenMode::Hover,
        120,
    );
    assert_eq!(open_path, vec![0]);
    assert!(!pending);
}

#[test]
fn poll_hover_click_mode_does_not_track() {
    let mut open_path = Vec::new();
    let mut hover_path = vec![0usize];
    let mut hover_started_at = Some(Instant::now() - Duration::from_secs(10));
    poll_hover(
        None,
        Instant::now(),
        &mut open_path,
        &mut hover_path,
        &mut hover_started_at,
        SubmenuOpenMode::Click,
        120,
    );
    assert!(open_path.is_empty());
    assert_eq!(hover_path, vec![0]);
}

#[test]
fn poll_hover_restarts_the_clock_on_a_new_target() {
    let mut open_path = Vec::new();
    let mut hover_path = Vec::new();
    let mut hover_started_at = None;
    let now = Instant::now();
    let pending = poll_hover(
        Some(vec![0]),
        now,
        &mut open_path,
        &mut hover_path,
        &mut hover_started_at,
        SubmenuOpenMode::HoverAndClick,
        120,
    );
    assert!(pending);
    assert_eq!(hover_path, vec![0]);
    assert_eq!(hover_started_at, Some(now));
    assert!(open_path.is_empty());
}

fn open_session() -> MenuSession<(i32, i32)> {
    let mut session = MenuSession::new();
    let out = session.open_at((5, 5));
    assert!(out.opened && out.capture);
    session
}

#[test]
fn session_keys_walk_and_pick() {
    let tree = nested_tree();
    let mut session = open_session();
    let out = handle_key(&mut session, &tree, NavKey::ArrowDown, true);
    assert!(out.capture);
    assert_eq!(session.focused_indices, vec![2]);
    let out = handle_key(&mut session, &tree, NavKey::ArrowRight, true);
    assert!(out.relayout);
    assert_eq!(session.open_path, vec![0]);
    let out = handle_key(&mut session, &tree, NavKey::Enter, true);
    assert_eq!(out.select, Some(MenuItemId(2)));
    assert!(out.closed);
    assert!(session.open.is_none());
}

#[test]
fn session_keys_on_a_closed_menu_do_nothing() {
    let tree = nested_tree();
    let mut session: MenuSession<(i32, i32)> = MenuSession::new();
    let out = handle_key(&mut session, &tree, NavKey::Escape, true);
    assert!(!out.capture && !out.closed);
}

#[test]
fn session_left_and_escape() {
    let tree = nested_tree();
    let mut session = open_session();
    session.open_path = vec![0];
    let out = handle_key(&mut session, &tree, NavKey::ArrowLeft, true);
    assert!(out.relayout && out.capture);
    assert!(session.open_path.is_empty());
    let out = handle_key(&mut session, &tree, NavKey::Escape, true);
    assert!(out.closed && out.relayout && out.capture);
    assert!(session.open.is_none());
}

#[test]
fn overlay_events_apply_to_the_session() {
    let mut session = open_session();
    let out = apply_overlay_event(&mut session, OverlayEvent::OpenPath(vec![0]), SubmenuOpenMode::Hover, true);
    assert!(!out.capture);
    assert!(session.open_path.is_empty());
    let out = apply_overlay_event(&mut session, OverlayEvent::OpenPath(vec![0]), SubmenuOpenMode::Click, true);
    assert!(out.relayout && out.capture);
    assert_eq!(session.open_path, vec![0]);
    let out = apply_overlay_event(&mut session, OverlayEvent::Inert, SubmenuOpenMode::Click, true);
    assert!(out.capture && !out.relayout);
    let out = apply_overlay_event(&mut session, OverlayEvent::Select(MenuItemId(3)), SubmenuOpenMode::Click, false);
    assert_eq!(out.select, Some(MenuItemId(3)));
    assert!(session.open.is_some());
    let out = apply_overlay_event(&mut session, OverlayEvent::Close, SubmenuOpenMode::Click, false);
    assert!(out.closed);
    assert!(session.open.is_none());
    let out = apply_overlay_event(&mut session, OverlayEvent::Close, SubmenuOpenMode::Click, false);
    assert!(!out.closed);
}

#[test]
fn select_item_reports_before_closing() {
    let mut session = open_session();
    let out = session.select_item(MenuItemId(8), false);
    assert_eq!(out.select, Some(MenuItemId(8)));
    assert!(session.open.is_some());
    let out = session.select_item(MenuItemId(8), true);
    assert!(out.closed);
    assert!(session.open.is_none());
    assert!(!session.close_menu());
}

#[test]
fn old_spec_builders() {
    let spec = MenuSpec::new()
        .action(MenuItemId(1), "A".to_string())
        .separator()
        .submenu("S".to_string(), vec![MenuNode::Separator]);
    assert_eq!(spec.nodes().len(), 3);
    assert!(MenuSpec::default().nodes().is_empty());
    assert_eq!(MenuSpec::from_nodes(nested_tree()).nodes().len(), 3);
}

#[test]
fn hover_started_now_opens_only_without_delay() {
    let now = Instant::now();
    assert!(should_open_hover(Some(now), now, 0));
    assert!(!should_open_hover(Some(now), now, 1));
}

#[test]
fn each_action_row_is_labelled_with_its_own_title() {
    let nodes = vec![
        MenuNode::Action { id: MenuItemId(1), title: "Copy".into(), enabled: true },
        MenuNode::Action { id: MenuItemId(2), title: "Paste".into(), enabled: true },
    ];
    assert_eq!(label_for_row(&nodes, &[], &row(RowKind::Action(MenuItemId(2)))), Some("Paste".to_string()));
    assert_eq!(label_for_row(&nodes, &[], &row(RowKind::Action(MenuItemId(1)))), Some("Copy".to_string()));
    assert_eq!(label_for_row(&nodes, &[], &row(RowKind::Action(MenuItemId(3)))), None);
}

#[test]
fn hover_delay_is_at_least_one_millisecond() {
    assert_eq!(clamped_hover_delay(0), 1);
    assert_eq!(clamped_hover_delay(1), 1);
    assert_eq!(clamped_hover_delay(150), 150);
}
