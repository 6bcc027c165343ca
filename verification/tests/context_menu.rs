use iced_context_menu::context_menu::nav::{
    crossed_ids, dragged_row, drag_path, handle_keyboard_nav, icons_column_enabled, keyboard_nav_fits,
    next_flyout, number_rows, open_menu_at, overlay_update, panel_key, panel_nodes,
    row_highlighted, set_submenu_anchor, MenuInput, NavKey, PointerInput, Reaction,
};
use iced_context_menu::context_menu::open::{open_anchor, update_opening};
use iced_context_menu::context_menu::state::{
    current_nodes, first_focusable, next_focusable, node_at_path, starts_with, submenu_children,
    sync_open_path_for_focus,
};
use iced_context_menu::{
    ContextMenuOpen, ContextMenuState, MenuItemId, MenuNode, MenuSpec, NumberRange, SliderStop,
    SubmenuOpenMode,
};

type Node = MenuNode<(), ()>;
type Spec = MenuSpec<(), ()>;
type State = ContextMenuState<(i32, i32), ()>;

fn stops() -> Vec<SliderStop> {
    vec![
        SliderStop::new(MenuItemId(10), "Small".to_string()),
        SliderStop::new(MenuItemId(11), "Medium".to_string()),
        SliderStop::new(MenuItemId(12), "Large".to_string()),
    ]
}

/// Copy(1) | separator | disabled(2) | More > [Rename(3), Wrap(4), Size slider] | Grid(5)
fn spec() -> Spec {
    let more: Vec<Node> = vec![
        MenuNode::Action { id: MenuItemId(3), title: "Rename".to_string(), enabled: true, icon: None, hotkey: None },
        MenuNode::Toggle { id: MenuItemId(4), title: "Wrap".to_string(), on: false, enabled: true, hotkey: None },
        MenuNode::Slider { title: "Size".to_string(), stops: stops(), selected: 1, enabled: true, icon: None },
    ];
    MenuSpec::new()
        .action(MenuItemId(1), "Copy".to_string(), None, Some("Ctrl+C".to_string()))
        .separator()
        .disabled(MenuItemId(2), "Unavailable".to_string(), None, None)
        .submenu("More".to_string(), more, None)
        .toggle(MenuItemId(5), "Grid".to_string(), true, None)
}

fn opened(spec: &Spec) -> State {
    let mut state = State::new((0, 0));
    let r = open_menu_at(&mut state, spec.nodes(), (40, 50));
    assert!(r.opened && r.capture && r.redraw);
    state
}

fn key(state: &mut State, spec: &Spec, mode: SubmenuOpenMode, k: NavKey) -> Reaction {
    assert!(keyboard_nav_fits(state, spec));
    overlay_update(state, spec, mode, true, None, MenuInput::Key(k))
}

#[test]
fn opening_focuses_first_focusable_row() {
    let spec = spec();
    let state = opened(&spec);
    assert!(state.open);
    assert_eq!(state.anchor, (40, 50));
    assert_eq!(state.focus_path, vec![0]);
    assert!(state.open_path.is_empty());
}

#[test]
fn arrow_down_skips_separator_and_disabled_row() {
    let spec = spec();
    let mut state = opened(&spec);
    let r = key(&mut state, &spec, SubmenuOpenMode::Hover, NavKey::ArrowDown);
    assert!(r.capture && r.redraw);
    assert_eq!(state.focus_path, vec![3]);
    // Hover mode opens the submenu focus lands on.
    assert_eq!(state.open_path, vec![3]);
}

#[test]
fn arrow_down_in_click_mode_leaves_submenu_closed() {
    let spec = spec();
    let mut state = opened(&spec);
    key(&mut state, &spec, SubmenuOpenMode::Click, NavKey::ArrowDown);
    assert_eq!(state.focus_path, vec![3]);
    assert!(state.open_path.is_empty());
}

#[test]
fn arrow_up_wraps_to_last_row() {
    let spec = spec();
    let mut state = opened(&spec);
    key(&mut state, &spec, SubmenuOpenMode::Hover, NavKey::ArrowUp);
    assert_eq!(state.focus_path, vec![4]);
}

#[test]
fn arrows_down_then_up_restore_focus() {
    let spec = spec();
    let mut state = opened(&spec);
    key(&mut state, &spec, SubmenuOpenMode::Hover, NavKey::ArrowDown);
    key(&mut state, &spec, SubmenuOpenMode::Hover, NavKey::ArrowUp);
    assert_eq!(state.focus_path, vec![0]);
}

#[test]
fn arrow_right_opens_submenu_and_left_closes_it() {
    let spec = spec();
    let mut state = opened(&spec);
    key(&mut state, &spec, SubmenuOpenMode::Click, NavKey::ArrowDown);
    let r = key(&mut state, &spec, SubmenuOpenMode::Click, NavKey::ArrowRight);
    assert!(r.capture);
    assert_eq!(state.open_path, vec![3]);
    assert_eq!(state.focus_path, vec![3, 0]);
    let r = key(&mut state, &spec, SubmenuOpenMode::Click, NavKey::ArrowLeft);
    assert!(r.capture);
    assert_eq!(state.focus_path, vec![3]);
    assert!(state.open_path.is_empty());
    // Left on the root panel does nothing.
    let r = key(&mut state, &spec, SubmenuOpenMode::Click, NavKey::ArrowLeft);
    assert_eq!(r, Reaction::none());
}

#[test]
fn enter_on_action_selects_and_closes() {
    let spec = spec();
    let mut state = opened(&spec);
    let r = key(&mut state, &spec, SubmenuOpenMode::Hover, NavKey::Enter);
    assert_eq!(r.select, vec![MenuItemId(1)]);
    assert!(r.closed);
    assert!(!state.open);
    assert!(state.focus_path.is_empty());
}

#[test]
fn enter_on_action_without_close_on_select_keeps_menu_open() {
    let spec = spec();
    let mut state = opened(&spec);
    let r = handle_keyboard_nav(&mut state, &spec, SubmenuOpenMode::Hover, NavKey::Enter, false);
    assert_eq!(r.select, vec![MenuItemId(1)]);
    assert!(!r.closed);
    assert!(state.open);
}

#[test]
fn enter_on_toggle_selects_and_stays_open() {
    let spec = spec();
    let mut state = opened(&spec);
    key(&mut state, &spec, SubmenuOpenMode::Hover, NavKey::ArrowUp);
    let r = key(&mut state, &spec, SubmenuOpenMode::Hover, NavKey::Enter);
    assert_eq!(r.select, vec![MenuItemId(5)]);
    assert!(!r.closed);
    assert!(state.open);
}

#[test]
fn arrows_nudge_a_focused_slider() {
    let spec = spec();
    let mut state = opened(&spec);
    state.focus_path = vec![3, 2];
    let r = key(&mut state, &spec, SubmenuOpenMode::Hover, NavKey::ArrowRight);
    assert_eq!(r.select, vec![MenuItemId(12)]);
    assert!(r.capture && r.redraw && !r.closed);
    // The arrows leave focus and the open chain alone.
    assert_eq!(state.focus_path, vec![3, 2]);
    let r = key(&mut state, &spec, SubmenuOpenMode::Hover, NavKey::ArrowLeft);
    assert_eq!(r.select, vec![MenuItemId(10)]);
}

#[test]
fn nudge_at_the_end_reports_nothing() {
    let more: Vec<Node> = vec![MenuNode::Slider {
        title: "Size".to_string(),
        stops: stops(),
        selected: 2,
        enabled: true,
        icon: None,
    }];
    let spec: Spec = MenuSpec::new().submenu("More".to_string(), more, None);
    let mut state = opened(&spec);
    state.focus_path = vec![0, 0];
    let r = key(&mut state, &spec, SubmenuOpenMode::Hover, NavKey::ArrowRight);
    assert!(r.select.is_empty());
    assert!(r.capture);
    // Out of range settles on the last stop first.
    let more: Vec<Node> = vec![MenuNode::Slider {
        title: "Size".to_string(),
        stops: stops(),
        selected: 9,
        enabled: true,
        icon: None,
    }];
    let spec: Spec = MenuSpec::new().submenu("More".to_string(), more, None);
    let mut state = opened(&spec);
    state.focus_path = vec![0, 0];
    let r = key(&mut state, &spec, SubmenuOpenMode::Hover, NavKey::ArrowRight);
    assert_eq!(r.select, vec![MenuItemId(12)]);
}

#[test]
fn escape_closes_from_a_flyout() {
    let spec = spec();
    let mut state = opened(&spec);
    state.open_path = vec![3];
    let r = overlay_update(&mut state, &spec, SubmenuOpenMode::Hover, true, Some(0), MenuInput::Key(NavKey::Escape));
    assert!(r.closed && r.capture && r.redraw);
    assert!(!state.open);
    assert!(state.open_path.is_empty());
    assert_eq!(state.anchor, (40, 50));
}

#[test]
fn other_keys_do_nothing_in_flyouts() {
    let spec = spec();
    let mut state = opened(&spec);
    state.open_path = vec![3];
    let r = overlay_update(&mut state, &spec, SubmenuOpenMode::Hover, true, Some(0), MenuInput::Key(NavKey::ArrowDown));
    assert_eq!(r, Reaction::none());
    assert_eq!(state.focus_path, vec![0]);
}

#[test]
fn pointer_over_row_focuses_it_and_opens_hovered_submenu() {
    let spec = spec();
    let mut state = opened(&spec);
    let r = overlay_update(
        &mut state,
        &spec,
        SubmenuOpenMode::Hover,
        true,
        None,
        MenuInput::Pointer(PointerInput::Moved { row: Some(3), stop: None }),
    );
    assert!(r.redraw && !r.capture);
    assert_eq!(state.focus_path, vec![3]);
    assert_eq!(state.open_path, vec![3]);
    // Moving into the flyout keeps the chain open.
    overlay_update(
        &mut state,
        &spec,
        SubmenuOpenMode::Hover,
        true,
        Some(0),
        MenuInput::Pointer(PointerInput::Moved { row: Some(1), stop: None }),
    );
    assert_eq!(state.focus_path, vec![3, 1]);
    assert_eq!(state.open_path, vec![3]);
}

#[test]
fn press_outside_closes_unless_dragging() {
    let spec = spec();
    let mut state = opened(&spec);
    let outside = MenuInput::Pointer(PointerInput::Pressed { row: None, stop: None, outside_panel: true });
    let r = overlay_update(&mut state, &spec, SubmenuOpenMode::Hover, true, None, outside);
    assert!(r.closed);
    assert!(!state.open);

    let mut state = opened(&spec);
    state.open_path = vec![3];
    let press = MenuInput::Pointer(PointerInput::Pressed { row: Some(2), stop: Some(0), outside_panel: false });
    let r = overlay_update(&mut state, &spec, SubmenuOpenMode::Hover, true, Some(0), press);
    assert_eq!(r.select, vec![MenuItemId(10)]);
    assert!(state.slider_drag.is_some());
    let r = overlay_update(&mut state, &spec, SubmenuOpenMode::Hover, true, None, outside);
    assert!(!r.closed);
    assert!(state.open);
}

#[test]
fn slider_drag_reports_each_stop_once() {
    let spec = spec();
    let mut state = opened(&spec);
    state.open_path = vec![3];
    let depth = Some(0);
    // A press on the resting stop grabs the handle without reporting it.
    let press = MenuInput::Pointer(PointerInput::Pressed { row: Some(2), stop: Some(1), outside_panel: false });
    let r = overlay_update(&mut state, &spec, SubmenuOpenMode::Hover, true, depth, press);
    assert!(r.select.is_empty());
    assert!(r.capture);
    assert_eq!(drag_path(&state), &[3, 2]);
    assert_eq!(dragged_row(&state, &[3]), Some(2));
    assert_eq!(dragged_row(&state, &[]), None);

    let to_large = MenuInput::Pointer(PointerInput::Moved { row: None, stop: Some(2) });
    let r = overlay_update(&mut state, &spec, SubmenuOpenMode::Hover, true, depth, to_large);
    assert_eq!(r.select, vec![MenuItemId(12)]);
    let r = overlay_update(&mut state, &spec, SubmenuOpenMode::Hover, true, depth, to_large);
    assert!(r.select.is_empty());
    assert!(r.capture);
    // The root panel ignores the pointer while another panel's drag is live.
    let r = overlay_update(&mut state, &spec, SubmenuOpenMode::Hover, true, None, to_large);
    assert_eq!(r, Reaction::none());

    let release = MenuInput::Pointer(PointerInput::Released);
    let r = overlay_update(&mut state, &spec, SubmenuOpenMode::Hover, true, depth, release);
    assert!(r.capture);
    assert!(state.slider_drag.is_none());
    assert!(drag_path(&state).is_empty());
}

#[test]
fn press_off_the_track_grabs_nothing() {
    let spec = spec();
    let mut state = opened(&spec);
    state.open_path = vec![3];
    let press = MenuInput::Pointer(PointerInput::Pressed { row: Some(2), stop: None, outside_panel: false });
    let r = overlay_update(&mut state, &spec, SubmenuOpenMode::Hover, true, Some(0), press);
    assert!(r.capture && !r.redraw);
    assert!(state.slider_drag.is_none());
}

#[test]
fn click_mode_toggles_a_submenu() {
    let spec = spec();
    let mut state = opened(&spec);
    let press = MenuInput::Pointer(PointerInput::Pressed { row: Some(3), stop: None, outside_panel: false });
    let r = overlay_update(&mut state, &spec, SubmenuOpenMode::Click, true, None, press);
    assert!(r.capture);
    assert_eq!(state.open_path, vec![3]);
    overlay_update(&mut state, &spec, SubmenuOpenMode::Click, true, None, press);
    assert!(state.open_path.is_empty());
    // Hover mode ignores the click.
    let r = overlay_update(&mut state, &spec, SubmenuOpenMode::Hover, true, None, press);
    assert_eq!(r, Reaction::none());
}

#[test]
fn pressing_a_disabled_row_does_nothing() {
    let spec = spec();
    let mut state = opened(&spec);
    let press = MenuInput::Pointer(PointerInput::Pressed { row: Some(2), stop: None, outside_panel: false });
    let r = overlay_update(&mut state, &spec, SubmenuOpenMode::Hover, true, None, press);
    assert_eq!(r, Reaction::none());
    assert!(state.open);
}

#[test]
fn navigation_helpers_on_the_tree() {
    let spec = spec();
    let nodes = spec.nodes();
    assert_eq!(first_focusable(nodes, None), Some(0));
    assert_eq!(first_focusable(nodes, Some(0)), Some(3));
    assert_eq!(next_focusable(nodes, 0, 1), Some(3));
    assert_eq!(next_focusable(nodes, 0, -1), Some(4));
    assert_eq!(submenu_children(nodes, &[3]).map(|c| c.len()), Some(3));
    assert!(submenu_children(nodes, &[0]).is_none());
    assert!(submenu_children(nodes, &[]).is_none());
    assert!(matches!(node_at_path(nodes, &[3, 1]), Some(MenuNode::Toggle { .. })));
    assert!(node_at_path(nodes, &[3, 7]).is_none());
    assert_eq!(current_nodes(nodes, &[3, 1]).len(), 3);
    assert_eq!(current_nodes(nodes, &[1]).len(), 5);
    assert!(starts_with(&[3, 1], &[3]));
    assert!(!starts_with(&[3], &[3, 1]));
}

#[test]
fn no_focusable_row_is_found_in_a_panel_of_separators() {
    let spec: Spec = MenuSpec::new().separator().separator();
    assert_eq!(next_focusable(spec.nodes(), 0, 1), None);
    assert_eq!(first_focusable(spec.nodes(), None), None);
    let empty: Spec = MenuSpec::new();
    assert_eq!(next_focusable(empty.nodes(), 0, 1), None);
}

#[test]
fn sync_open_path_in_click_mode_keeps_an_open_submenu() {
    let spec = spec();
    let mut state = opened(&spec);
    state.open_path = vec![3];
    sync_open_path_for_focus(&mut state, &spec, SubmenuOpenMode::Click, &[3]);
    assert_eq!(state.open_path, vec![3]);
    state.open_path = vec![];
    sync_open_path_for_focus(&mut state, &spec, SubmenuOpenMode::Click, &[3]);
    assert!(state.open_path.is_empty());
    sync_open_path_for_focus(&mut state, &spec, SubmenuOpenMode::Click, &[3, 2]);
    assert_eq!(state.open_path, vec![3]);
    sync_open_path_for_focus(&mut state, &spec, SubmenuOpenMode::Hover, &[0]);
    assert!(state.open_path.is_empty());
    sync_open_path_for_focus(&mut state, &spec, SubmenuOpenMode::Hover, &[]);
    assert!(state.open_path.is_empty());
}

#[test]
fn open_anchor_follows_the_open_mode() {
    let right = ContextMenuOpen::<(i32, i32)>::RightClick;
    assert_eq!(open_anchor(&right, Some((1, 2)), Some((3, 4)), (5, 6)), Some((1, 2)));
    assert_eq!(open_anchor(&right, None, Some((3, 4)), (5, 6)), None);
    let fixed = ContextMenuOpen::Programmatic { open: true, anchor: Some((7, 8)) };
    assert_eq!(open_anchor(&fixed, Some((1, 2)), Some((3, 4)), (5, 6)), Some((7, 8)));
    let at_cursor = ContextMenuOpen::Programmatic { open: true, anchor: None };
    assert_eq!(open_anchor(&at_cursor, None, Some((3, 4)), (5, 6)), Some((3, 4)));
    assert_eq!(open_anchor(&at_cursor, None, None, (5, 6)), Some((5, 6)));
    let idle = ContextMenuOpen::Programmatic { open: false, anchor: Some((7, 8)) };
    assert_eq!(open_anchor(&idle, Some((1, 2)), None, (5, 6)), None);
    assert!(matches!(ContextMenuOpen::<(i32, i32)>::default(), ContextMenuOpen::RightClick));
}

#[test]
fn update_opening_opens_only_a_closed_menu() {
    let spec = spec();
    let mut state = State::new((0, 0));
    let r = update_opening(&mut state, spec.nodes(), &ContextMenuOpen::RightClick, Some((9, 9)), None, (1, 1));
    assert!(r.opened);
    assert_eq!(state.anchor, (9, 9));
    let r = update_opening(&mut state, spec.nodes(), &ContextMenuOpen::RightClick, Some((2, 2)), None, (1, 1));
    assert_eq!(r, Reaction::none());
    assert_eq!(state.anchor, (9, 9));
}

#[test]
fn builders_record_rows_in_order() {
    let spec: Spec = MenuSpec::new()
        .toggle_disabled(MenuItemId(1), "T".to_string(), false, None)
        .slider_disabled("S".to_string(), stops(), 0, None)
        .slider("S2".to_string(), stops(), 1, None)
        .integer(MenuItemId(2), "Width".to_string(), 12, 1..=64, 0, None)
        .number(MenuItemId(3), "Ratio".to_string(), (), None);
    let nodes = spec.nodes();
    assert_eq!(nodes.len(), 5);
    assert!(matches!(nodes[0], MenuNode::Toggle { enabled: false, on: false, .. }));
    assert!(matches!(nodes[1], MenuNode::Slider { enabled: false, selected: 0, .. }));
    assert!(matches!(nodes[2], MenuNode::Slider { enabled: true, selected: 1, .. }));
    match &nodes[3] {
        MenuNode::Number { id, range, enabled, .. } => {
            assert_eq!(*id, MenuItemId(2));
            assert!(*enabled);
            assert!(range.is_integral());
            assert!(matches!(range, NumberRange::Whole { value: 12, min: 1, max: 64, step: 0 }));
            assert_eq!(range.whole_field_bounds(true), Some((1, 64)));
            assert_eq!(range.whole_field_bounds(false), Some((12, 12)));
            assert_eq!(range.whole_field_step(), Some(1));
        }
        _ => panic!("expected a number row"),
    }
    match &nodes[4] {
        MenuNode::Number { range, .. } => {
            assert!(!range.is_integral());
            assert_eq!(range.whole_field_bounds(true), None);
            assert_eq!(range.whole_field_step(), None);
        }
        _ => panic!("expected a number row"),
    }
    let from: Spec = MenuSpec::from_nodes(vec![MenuNode::Separator]);
    assert_eq!(from.nodes().len(), 1);
    let default: Spec = MenuSpec::default();
    assert!(default.nodes().is_empty());
}

#[test]
fn panel_helpers() {
    let spec: Spec = MenuSpec::new()
        .integer(MenuItemId(2), "Width".to_string(), 12, 1..=64, 4, None)
        .separator()
        .number(MenuItemId(3), "Ratio".to_string(), (), None);
    assert_eq!(number_rows(spec.nodes()), vec![0, 2]);
    assert!(!icons_column_enabled(spec.nodes(), false));
    assert!(icons_column_enabled(spec.nodes(), true));
    let with_toggle = spec.toggle(MenuItemId(9), "T".to_string(), true, None);
    assert!(icons_column_enabled(with_toggle.nodes(), false));
    assert_eq!(panel_key(None), 0);
    assert_eq!(panel_key(Some(2)), 3);

    let spec = spec_with_submenu();
    let mut state = opened(&spec);
    assert_eq!(panel_nodes(&spec, &state, None).map(|n| n.len()), Some(5));
    assert!(panel_nodes(&spec, &state, Some(0)).is_none());
    state.open_path = vec![3];
    assert_eq!(panel_nodes(&spec, &state, Some(0)).map(|n| n.len()), Some(3));
}

fn spec_with_submenu() -> Spec {
    spec()
}

#[test]
fn id_displays_in_decimal() {
    assert_eq!(MenuItemId(42).display_string(), "42");
    assert_eq!(MenuItemId(0).display_string(), "0");
    assert_eq!(MenuItemId::from_u64(7), MenuItemId(7));
    let id: MenuItemId = 5_u64.into();
    assert_eq!(id, MenuItemId(5));
}

#[test]
fn close_and_reset_forget_interaction() {
    let spec = spec();
    let mut state = opened(&spec);
    state.open_path = vec![3];
    state.submenu_anchors = vec![()];
    state.reset_interaction();
    assert!(state.open);
    assert!(state.focus_path.is_empty() && state.open_path.is_empty() && state.submenu_anchors.is_empty());
    state.ensure_focus(spec.nodes());
    assert_eq!(state.focus_path, vec![0]);
    state.close();
    assert!(!state.open);
    assert_eq!(SubmenuOpenMode::default(), SubmenuOpenMode::Hover);
}

#[test]
fn flyouts_stack_while_path_and_anchors_reach() {
    let mut state: ContextMenuState<(i32, i32), (i32, i32)> = ContextMenuState::new((0, 0));
    assert_eq!(next_flyout(&state, None), None);
    state.open_path = vec![3, 1];
    assert_eq!(next_flyout(&state, None), None);
    set_submenu_anchor(&mut state, 0, (100, 20), (0, 0));
    assert_eq!(next_flyout(&state, None), Some(0));
    assert_eq!(next_flyout(&state, Some(0)), None);
    set_submenu_anchor(&mut state, 1, (180, 40), (0, 0));
    assert_eq!(next_flyout(&state, Some(0)), Some(1));
    assert_eq!(next_flyout(&state, Some(1)), None);
}

#[test]
fn submenu_anchor_pads_and_overwrites() {
    let mut state: ContextMenuState<(i32, i32), (i32, i32)> = ContextMenuState::new((0, 0));
    set_submenu_anchor(&mut state, 2, (7, 8), (-1, -1));
    assert_eq!(state.submenu_anchors, vec![(-1, -1), (-1, -1), (7, 8)]);
    set_submenu_anchor(&mut state, 0, (1, 2), (-1, -1));
    assert_eq!(state.submenu_anchors, vec![(1, 2), (-1, -1), (7, 8)]);
}

#[test]
fn spec_from_a_vec_of_nodes() {
    let nodes: Vec<Node> = vec![MenuNode::Separator, MenuNode::Separator];
    let spec: Spec = nodes.into();
    assert_eq!(spec.nodes().len(), 2);
    assert!(matches!(spec.nodes()[1], MenuNode::Separator));
}

/// Five stops, ids 20 to 24.
fn five_stops() -> Vec<SliderStop> {
    (0..5u64).map(|k| SliderStop::new(MenuItemId(20 + k), format!("{k}"))).collect()
}

#[test]
fn a_drag_reports_every_stop_it_crosses_in_order() {
    let more: Vec<Node> = vec![MenuNode::Slider {
        title: "Zoom".to_string(),
        stops: five_stops(),
        selected: 0,
        enabled: true,
        icon: None,
    }];
    let spec: Spec = MenuSpec::new().submenu("More".to_string(), more, None);
    let mut state = opened(&spec);
    state.open_path = vec![0];
    let depth = Some(0);
    let press = MenuInput::Pointer(PointerInput::Pressed { row: Some(0), stop: Some(0), outside_panel: false });
    let r = overlay_update(&mut state, &spec, SubmenuOpenMode::Hover, true, depth, press);
    assert!(r.select.is_empty());

    let to_three = MenuInput::Pointer(PointerInput::Moved { row: None, stop: Some(3) });
    let r = overlay_update(&mut state, &spec, SubmenuOpenMode::Hover, true, depth, to_three);
    assert_eq!(r.select, vec![MenuItemId(21), MenuItemId(22), MenuItemId(23)]);
    assert!(!r.closed && state.open);

    let back_to_one = MenuInput::Pointer(PointerInput::Moved { row: None, stop: Some(1) });
    let r = overlay_update(&mut state, &spec, SubmenuOpenMode::Hover, true, depth, back_to_one);
    assert_eq!(r.select, vec![MenuItemId(22), MenuItemId(21)]);
}

#[test]
fn a_click_that_jumps_reports_every_stop_crossed() {
    let more: Vec<Node> = vec![MenuNode::Slider {
        title: "Zoom".to_string(),
        stops: five_stops(),
        selected: 4,
        enabled: true,
        icon: None,
    }];
    let spec: Spec = MenuSpec::new().submenu("More".to_string(), more, None);
    let mut state = opened(&spec);
    state.open_path = vec![0];
    let press = MenuInput::Pointer(PointerInput::Pressed { row: Some(0), stop: Some(1), outside_panel: false });
    let r = overlay_update(&mut state, &spec, SubmenuOpenMode::Hover, true, Some(0), press);
    assert_eq!(r.select, vec![MenuItemId(23), MenuItemId(22), MenuItemId(21)]);
}

#[test]
fn crossed_stops_skip_missing_ones() {
    let stops = five_stops();
    assert_eq!(crossed_ids(&stops, 2, 2), vec![]);
    assert_eq!(crossed_ids(&stops, 0, 9), vec![MenuItemId(21), MenuItemId(22), MenuItemId(23), MenuItemId(24)]);
    assert_eq!(crossed_ids(&stops, 9, 3), vec![MenuItemId(24), MenuItemId(23)]);
    assert_eq!(crossed_ids(&Vec::new(), 0, 3), vec![]);
}

#[test]
fn escape_closes_whatever_the_focus() {
    let spec = spec();
    let mut state = opened(&spec);
    state.focus_path = vec![isize::MAX as usize];
    assert!(!keyboard_nav_fits(&state, &spec));
    let r = overlay_update(&mut state, &spec, SubmenuOpenMode::Hover, true, None, MenuInput::Key(NavKey::Escape));
    assert!(r.closed && r.capture);
    assert!(!state.open && state.focus_path.is_empty());
}

#[test]
fn highlight_follows_pointer_open_chain_and_focus() {
    let action: Node = MenuNode::Action { id: MenuItemId(1), title: "A".to_string(), enabled: true, icon: None, hotkey: None };
    assert!(row_highlighted(&action, true, true, &[0], &[], &[]));
    assert!(row_highlighted(&action, false, true, &[2], &[], &[2, 1]));
    assert!(row_highlighted(&action, false, false, &[0], &[0], &[]));
    assert!(!row_highlighted(&action, false, true, &[0], &[0], &[]));
    assert!(!row_highlighted(&MenuNode::<(), ()>::Separator, true, true, &[0], &[0], &[0]));
}
