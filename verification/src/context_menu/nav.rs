//! What a menu panel does with each event: keyboard navigation, pointer focus and clicks,
//! slider presses and drags, dismissal.
//!
//! The host measures; this module decides. The host hit-tests the pointer against its own
//! layout and hands over the row and slider stop it lands on; each function here updates the
//! [`ContextMenuState`] and returns a [`Reaction`] telling the host what to publish.

use super::menu::{MenuItemId, MenuNode, MenuSpec, SliderStop};
use super::state::{
    children_at, copy_path, current_nodes, cyclic_scan, cyclic_scan_fits, first_focusable,
    first_focusable_spec, focused_panel, is_prefix, is_submenu, next_focusable, node_at,
    node_at_path,
    starts_with, submenu_children, sync_open_path_for_focus, synced_open_path, ContextMenuState,
    SliderDrag, SubmenuOpenMode,
};
use vstd::prelude::*;

verus! {

/// What the host does in answer to an event, in this order: publish the open message, hand each
/// id of `select` to the selection callback in turn, publish the close message, capture the
/// event, and ask for a redraw.
#[derive(Debug, Clone, PartialEq, Eq)]
pub struct Reaction {
    /// The menu opened.
    pub opened: bool,
    /// The ids to report as picked, in order: a picked row's id, or each slider stop the handle
    /// crossed.
    pub select: Vec<MenuItemId>,
    /// The menu closed.
    pub closed: bool,
    /// The event is used up.
    pub capture: bool,
    /// The menu has to be drawn again.
    pub redraw: bool,
}

/// A key press, as far as menu navigation tells keys apart.
#[derive(Debug, Clone, Copy, PartialEq, Eq, Structural)]
pub enum NavKey {
    ArrowUp,
    ArrowDown,
    ArrowLeft,
    ArrowRight,
    Enter,
    Escape,
    Other,
}

/// A pointer event on one panel, already hit-tested by the host against that panel's layout.
#[derive(Debug, Clone, Copy, PartialEq, Eq, Structural)]
pub enum PointerInput {
    /// The pointer moved. `row` is the row under it, `None` off the panel or between rows.
    /// `stop` is the stop nearest the pointer along the track of the slider a live drag holds on
    /// this panel, `None` when that cannot be measured.
    Moved { row: Option<usize>, stop: Option<usize> },
    /// The primary button or a finger went down. `row` as for `Moved`; `stop` is the stop nearest
    /// the press when it landed in the track band of that row's slider; `outside_panel` is true
    /// when the press landed on the dismiss layer, off the panel.
    Pressed { row: Option<usize>, stop: Option<usize>, outside_panel: bool },
    /// The primary button or the finger came up, or the finger was lost.
    Released,
    Other,
}

/// An event as a menu overlay receives it.
#[derive(Debug, Clone, Copy, PartialEq, Eq, Structural)]
pub enum MenuInput {
    Key(NavKey),
    Pointer(PointerInput),
}

impl View for Reaction {
    /// `(opened, select, closed, capture, redraw)`, the ids to report as a sequence.
    type V = (bool, Seq<MenuItemId>, bool, bool, bool);

    open spec fn view(&self) -> Self::V {
        (self.opened, self.select@, self.closed, self.capture, self.redraw)
    }
}

/// A reaction to an event that did not open the menu.
pub open spec fn reaction(select: Seq<MenuItemId>, closed: bool, capture: bool, redraw: bool) -> (
    bool,
    Seq<MenuItemId>,
    bool,
    bool,
    bool,
) {
    (false, select, closed, capture, redraw)
}

/// The reaction to an event the menu leaves alone.
pub open spec fn quiet() -> (bool, Seq<MenuItemId>, bool, bool, bool) {
    reaction(Seq::empty(), false, false, false)
}

impl Reaction {
    pub fn none() -> (r: Reaction)
        ensures
            r@ == quiet(),
    {
        Reaction { opened: false, select: Vec::new(), closed: false, capture: false, redraw: false }
    }

    fn handled(select: Vec<MenuItemId>) -> (r: Reaction)
        ensures
            r@ == reaction(select@, false, true, true),
    {
        Reaction { opened: false, select, closed: false, capture: true, redraw: true }
    }

    fn captured() -> (r: Reaction)
        ensures
            r@ == reaction(Seq::empty(), false, true, false),
    {
        Reaction { opened: false, select: Vec::new(), closed: false, capture: true, redraw: false }
    }
}

// ---------------------------------------------------------------------------------------------
// State transitions, stated as relations between the state before and after.
// ---------------------------------------------------------------------------------------------

/// `new` is `old` closed: no focus, no open submenu, no flyout anchors, no drag.
pub open spec fn closed_from<P, R>(old: ContextMenuState<P, R>, new: ContextMenuState<P, R>) -> bool {
    &&& !new.open
    &&& new.anchor == old.anchor
    &&& new.focus_path@.len() == 0
    &&& new.open_path@.len() == 0
    &&& new.submenu_anchors@.len() == 0
    &&& new.slider_drag is None
}

/// `new` is `old` with focus path `focus` and open path `open`, and nothing else changed.
pub open spec fn refocused<P, R>(
    old: ContextMenuState<P, R>,
    new: ContextMenuState<P, R>,
    focus: Seq<usize>,
    open: Seq<usize>,
) -> bool {
    &&& new.open == old.open
    &&& new.anchor == old.anchor
    &&& new.focus_path@ == focus
    &&& new.open_path@ == open
    &&& new.submenu_anchors == old.submenu_anchors
    &&& new.slider_drag == old.slider_drag
}

/// `new` is `old` with drag `drag` (as path and stop), and nothing else changed.
pub open spec fn redragged<P, R>(
    old: ContextMenuState<P, R>,
    new: ContextMenuState<P, R>,
    drag: Option<(Seq<usize>, usize)>,
) -> bool {
    &&& new.open == old.open
    &&& new.anchor == old.anchor
    &&& new.focus_path == old.focus_path
    &&& new.open_path == old.open_path
    &&& new.submenu_anchors == old.submenu_anchors
    &&& match drag {
        None => new.slider_drag is None,
        Some((path, stop)) => new.slider_drag matches Some(d) && d.path@ == path && d.stop == stop,
    }
}

/// The first `n` entries of `path`, or all of it when it is shorter (`Vec::truncate`).
pub open spec fn truncated(path: Seq<usize>, n: int) -> Seq<usize> {
    if n <= path.len() {
        path.subrange(0, n)
    } else {
        path
    }
}

/// `path` without its last entry; empty stays empty.
pub open spec fn parent_path(path: Seq<usize>) -> Seq<usize> {
    if path.len() == 0 {
        path
    } else {
        path.drop_last()
    }
}

/// The ids of the stops a handle crosses going from stop `from` to stop `to`, in the order it
/// crosses them: `from` left out, `to` taken in, and only stops the slider has.
pub open spec fn crossed(stops: Seq<SliderStop>, from: int, to: int) -> Seq<MenuItemId> {
    if from < to {
        let hi = if to < stops.len() {
            to
        } else {
            stops.len() - 1
        };
        Seq::new(if hi > from { (hi - from) as nat } else { 0 }, |i: int| stops[from + 1 + i].id)
    } else if to < from {
        let top = if from - 1 < stops.len() {
            from - 1
        } else {
            stops.len() - 1
        };
        Seq::new(if top >= to { (top - to + 1) as nat } else { 0 }, |i: int| stops[top - i].id)
    } else {
        Seq::empty()
    }
}

/// Picking row `idx` of panel `nodes`, whose path is `path`: an enabled action reports its id and
/// closes the menu when `close_on_select`; an enabled toggle reports its id and leaves the menu
/// open; a submenu row in click mode opens its submenu, or closes it when it is the one open.
pub open spec fn activated<P, R, I, X>(
    old: ContextMenuState<P, R>,
    new: ContextMenuState<P, R>,
    r: Reaction,
    mode: SubmenuOpenMode,
    close_on_select: bool,
    path: Seq<usize>,
    nodes: Seq<MenuNode<I, X>>,
    idx: int,
) -> bool {
    if 0 <= idx < nodes.len() {
        match nodes[idx] {
            MenuNode::Action { id, enabled, .. } => if enabled {
                &&& r@ == reaction(seq![id], close_on_select, true, true)
                &&& if close_on_select {
                    closed_from(old, new)
                } else {
                    new == old
                }
            } else {
                new == old && r@ == quiet()
            },
            MenuNode::Toggle { id, enabled, .. } => if enabled {
                new == old && r@ == reaction(seq![id], false, true, true)
            } else {
                new == old && r@ == quiet()
            },
            MenuNode::Submenu { .. } => if mode == SubmenuOpenMode::Click {
                &&& r@ == reaction(Seq::empty(), false, true, true)
                &&& refocused(
                    old,
                    new,
                    old.focus_path@,
                    if old.open_path@ == path {
                        parent_path(path)
                    } else {
                        path
                    },
                )
            } else {
                new == old && r@ == quiet()
            },
            _ => new == old && r@ == quiet(),
        }
    } else {
        new == old && r@ == quiet()
    }
}

/// The stop a slider of `len` stops resting on `selected` moves to one step of `dir` away: the
/// handle first settles on the last stop if it was past it, and never leaves the track.
pub open spec fn nudged_stop(len: int, selected: int, dir: int) -> int {
    let base = if selected < len - 1 {
        selected
    } else {
        len - 1
    };
    let moved = base + dir;
    if moved < 0 {
        0
    } else if moved < len - 1 {
        moved
    } else {
        len - 1
    }
}

/// What an arrow key does on a focused, enabled slider row: the handle moves one stop, the new
/// stop is reported when the handle moved, and nothing else changes. `None` when the focused row
/// is not an enabled slider.
pub open spec fn slider_nudge<I, X>(nodes: Seq<MenuNode<I, X>>, focus: Seq<usize>, dir: int) -> Option<
    (bool, Seq<MenuItemId>, bool, bool, bool),
> {
    match node_at(nodes, focus) {
        Some(MenuNode::Slider { stops, selected, enabled, .. }) => if enabled {
            let next = nudged_stop(stops@.len() as int, selected as int, dir);
            Some(
                reaction(
                    if stops@.len() > 0 && next != selected {
                        seq![stops@[next].id]
                    } else {
                        Seq::empty()
                    },
                    false,
                    true,
                    true,
                ),
            )
        } else {
            None
        },
        _ => None,
    }
}

/// The focus path after moving focus to row `i` of the focused panel.
pub open spec fn focus_moved_to(focus: Seq<usize>, i: usize) -> Seq<usize> {
    if focus.len() == 0 {
        seq![i]
    } else {
        focus.update(focus.len() - 1, i)
    }
}

/// The row focus starts from: the last entry of the focus path, or 0.
pub open spec fn focus_last(focus: Seq<usize>) -> usize {
    if focus.len() == 0 {
        0
    } else {
        focus.last()
    }
}

/// The panel holding the row `path` points at.
pub open spec fn parent_panel<I, X>(nodes: Seq<MenuNode<I, X>>, path: Seq<usize>) -> Seq<
    MenuNode<I, X>,
> {
    if path.len() == 1 {
        nodes
    } else {
        match children_at(nodes, path.drop_last()) {
            Some(children) => children,
            None => Seq::empty(),
        }
    }
}

/// Focus moves up or down the focused panel to the next row it can land on, wrapping around, and
/// the open chain follows it.
pub open spec fn focus_stepped<P, R, I, X>(
    old: ContextMenuState<P, R>,
    new: ContextMenuState<P, R>,
    r: Reaction,
    nodes: Seq<MenuNode<I, X>>,
    mode: SubmenuOpenMode,
    dir: int,
) -> bool {
    let panel = focused_panel(nodes, old.focus_path@);
    let found = if panel.len() == 0 {
        None
    } else {
        cyclic_scan(panel, focus_last(old.focus_path@) as isize as int, dir, panel.len() as nat)
    };
    match found {
        Some(i) => {
            let focus = focus_moved_to(old.focus_path@, i as usize);
            &&& r@ == reaction(Seq::empty(), false, true, true)
            &&& refocused(old, new, focus, synced_open_path(nodes, focus, mode, old.open_path@))
        },
        None => new == old && r@ == quiet(),
    }
}

/// What a key does to the menu, Escape aside.
pub open spec fn key_navigated<P, R, I, X>(
    old: ContextMenuState<P, R>,
    new: ContextMenuState<P, R>,
    r: Reaction,
    nodes: Seq<MenuNode<I, X>>,
    mode: SubmenuOpenMode,
    key: NavKey,
    close_on_select: bool,
) -> bool {
    let focus = old.focus_path@;
    match key {
        NavKey::ArrowDown => focus_stepped(old, new, r, nodes, mode, 1),
        NavKey::ArrowUp => focus_stepped(old, new, r, nodes, mode, -1),
        NavKey::ArrowRight => match slider_nudge(nodes, focus, 1) {
            Some(nudge) => new == old && r@ == nudge,
            None => if node_at(nodes, focus) is Some && is_submenu(node_at(nodes, focus)->0) {
                &&& r@ == reaction(Seq::empty(), false, true, true)
                &&& refocused(
                    old,
                    new,
                    match children_at(nodes, focus) {
                        Some(children) => match first_focusable_spec(children, None) {
                            Some(ci) => focus.push(ci),
                            None => focus,
                        },
                        None => focus,
                    },
                    focus,
                )
            } else {
                new == old && r@ == quiet()
            },
        },
        NavKey::ArrowLeft => match slider_nudge(nodes, focus, -1) {
            Some(nudge) => new == old && r@ == nudge,
            None => if focus.len() > 1 {
                &&& r@ == reaction(Seq::empty(), false, true, true)
                &&& refocused(
                    old,
                    new,
                    focus.drop_last(),
                    truncated(old.open_path@, focus.len() - 2),
                )
            } else {
                new == old && r@ == quiet()
            },
        },
        NavKey::Enter => if focus.len() > 0 {
            activated(
                old,
                new,
                r,
                mode,
                close_on_select,
                focus,
                parent_panel(nodes, focus),
                focus.last() as int,
            )
        } else {
            new == old && r@ == quiet()
        },
        _ => new == old && r@ == quiet(),
    }
}

/// The panel that keyboard navigation can walk without a step leaving `isize`: the focused
/// panel is no longer than `isize::MAX` rows, and the focused row index moves by one either way
/// without overflowing.
pub open spec fn key_nav_fits<I, X>(nodes: Seq<MenuNode<I, X>>, focus: Seq<usize>) -> bool {
    &&& focused_panel(nodes, focus).len() <= isize::MAX
    &&& isize::MIN < focus_last(focus) as isize as int
    &&& (focus_last(focus) as isize as int) < isize::MAX
}

/// A live drag carries on: the handle follows the pointer to the stop it is nearest and reports
/// every stop it crosses on the way there, in order, until the button comes up.
pub open spec fn slider_dragged<P, R, I, X>(
    old: ContextMenuState<P, R>,
    new: ContextMenuState<P, R>,
    r: Reaction,
    input: PointerInput,
    nodes: Seq<MenuNode<I, X>>,
    index: int,
) -> bool {
    let drag = old.slider_drag->0;
    match input {
        PointerInput::Moved { stop, .. } => {
            let moved_to = if 0 <= index < nodes.len() && nodes[index] is Slider && stop is Some
                && stop->0 != drag.stop {
                Some(stop->0)
            } else {
                None
            };
            match moved_to {
                Some(s) => {
                    &&& r@ == reaction(
                        crossed(nodes[index]->Slider_stops@, drag.stop as int, s as int),
                        false,
                        true,
                        true,
                    )
                    &&& redragged(old, new, Some((drag.path@, s)))
                },
                None => new == old && r@ == reaction(Seq::empty(), false, true, false),
            }
        },
        PointerInput::Released => redragged(old, new, None) && r@ == reaction(Seq::empty(), false, true, true),
        _ => new == old && r@ == quiet(),
    }
}

/// A press on slider row `index` of `nodes` (path `path`): the row takes the press whatever it
/// lands on; on an enabled slider, a press in its track band grabs the handle at stop `stop` and
/// reports every stop the handle crosses from the one the slider rests on to `stop`, in order.
pub open spec fn slider_pressed<P, R, I, X>(
    old: ContextMenuState<P, R>,
    new: ContextMenuState<P, R>,
    r: Reaction,
    nodes: Seq<MenuNode<I, X>>,
    path: Seq<usize>,
    index: int,
    stop: Option<usize>,
) -> bool {
    match (if 0 <= index < nodes.len() {
        Some(nodes[index])
    } else {
        None
    }) {
        Some(MenuNode::Slider { stops, selected, enabled, .. }) => if enabled && stop is Some {
            let s = stop->0;
            &&& r@ == reaction(
                crossed(stops@, selected as int, s as int),
                false,
                true,
                true,
            )
            &&& redragged(old, new, Some((path, s)))
        } else {
            new == old && r@ == reaction(Seq::empty(), false, true, false)
        },
        _ => new == old && r@ == reaction(Seq::empty(), false, true, false),
    }
}

/// A pointer event on the panel `nodes`, whose rows' paths start with `prefix`.
pub open spec fn panel_pointed<P, R, I, X>(
    old: ContextMenuState<P, R>,
    new: ContextMenuState<P, R>,
    r: Reaction,
    items: Seq<MenuNode<I, X>>,
    mode: SubmenuOpenMode,
    close_on_select: bool,
    input: PointerInput,
    nodes: Seq<MenuNode<I, X>>,
    prefix: Seq<usize>,
) -> bool {
    match old.slider_drag {
        // A live drag owns the pointer: the panel holding it keeps the handle following, and no
        // panel re-focuses a row or opens a flyout until the drag ends.
        Some(drag) => if drag.path@.len() == prefix.len() + 1 && is_prefix(prefix, drag.path@) {
            slider_dragged(old, new, r, input, nodes, drag.path@[prefix.len() as int] as int)
        } else {
            new == old && r@ == quiet()
        },
        None => match input {
            PointerInput::Moved { row: Some(idx), .. } => {
                let focus = prefix.push(idx);
                &&& r@ == reaction(Seq::empty(), false, false, true)
                &&& refocused(old, new, focus, synced_open_path(items, focus, mode, old.open_path@))
            },
            PointerInput::Pressed { row: Some(idx), stop, .. } => if 0 <= idx < nodes.len()
                && nodes[idx as int] is Slider {
                slider_pressed(old, new, r, nodes, prefix.push(idx), idx as int, stop)
            } else {
                activated(old, new, r, mode, close_on_select, prefix.push(idx), nodes, idx as int)
            },
            _ => new == old && r@ == quiet(),
        },
    }
}

// ---------------------------------------------------------------------------------------------
// Executable decisions.
// ---------------------------------------------------------------------------------------------

/// Picks row `idx` of panel `nodes`, whose path is `path`.
pub fn activate_row<P, R, I, X>(
    state: &mut ContextMenuState<P, R>,
    submenu_mode: SubmenuOpenMode,
    close_on_select: bool,
    path: &[usize],
    nodes: &[MenuNode<I, X>],
    idx: usize,
) -> (r: Reaction)
    ensures
        activated(*old(state), *final(state), r, submenu_mode, close_on_select, path@, nodes@, idx as int),
{
    if idx >= nodes.len() {
        return Reaction::none();
    }
    match &nodes[idx] {
        MenuNode::Action { id, enabled, .. } => {
            if !*enabled {
                return Reaction::none();
            }
            if close_on_select {
                state.close();
            }
            let select = vec![*id];
            proof {
                assert(select@ =~= seq![*id]);
            }
            Reaction { opened: false, select, closed: close_on_select, capture: true, redraw: true }
        },
        MenuNode::Toggle { id, enabled, .. } => {
            // A toggle flips state in place: the menu stays open so the new checkbox is visible
            // and further rows can be picked, regardless of `close_on_select`.
            if !*enabled {
                return Reaction::none();
            }
            let select = vec![*id];
            proof {
                assert(select@ =~= seq![*id]);
            }
            Reaction::handled(select)
        },
        MenuNode::Submenu { .. } => {
            if submenu_mode != SubmenuOpenMode::Click {
                return Reaction::none();
            }
            let is_open = starts_with(&state.open_path, path) && state.open_path.len()
                == path.len();
            if is_open {
                let keep = if path.len() == 0 {
                    0
                } else {
                    path.len() - 1
                };
                state.open_path.truncate(keep);
                proof {
                    assert(old(state).open_path@ =~= path@);
                }
            } else {
                state.open_path = copy_path(path);
                proof {
                    if old(state).open_path@ == path@ {
                        assert(old(state).open_path@.subrange(0, path@.len() as int) =~= path@);
                    }
                }
            }
            Reaction::handled(Vec::new())
        },
        _ => Reaction::none(),
    }
}

/// Closes the menu on Escape or a press on the dismiss layer.
pub fn handle_escape<P, R>(state: &mut ContextMenuState<P, R>) -> (r: Reaction)
    ensures
        closed_from(*old(state), *final(state)),
        r@ == reaction(Seq::empty(), true, true, true),
{
    state.close();
    Reaction { opened: false, select: Vec::new(), closed: true, capture: true, redraw: true }
}

/// Arrow keys on a focused slider row move its handle one stop instead of walking the menu;
/// `None` when the focused row is not an enabled slider.
pub fn nudge_focused_slider<P, R, I, X>(
    state: &ContextMenuState<P, R>,
    items: &MenuSpec<I, X>,
    direction: isize,
) -> (r: Option<Reaction>)
    ensures
        match r {
            Some(reaction) => slider_nudge(items.spec_nodes(), state.focus_path@, direction as int)
                == Some(reaction@),
            None => slider_nudge(items.spec_nodes(), state.focus_path@, direction as int) is None,
        },
{
    match node_at_path(items.nodes(), &state.focus_path) {
        Some(MenuNode::Slider { stops, selected, enabled, .. }) => {
            if !*enabled {
                return None;
            }
            let mut select: Vec<MenuItemId> = Vec::new();
            if stops.len() > 0 {
                let last = stops.len() - 1;
                let base = if *selected < last {
                    *selected
                } else {
                    last
                };
                let next: usize = if direction < 0 {
                    let back = (0 - (direction as i128)) as u128;
                    if (base as u128) < back {
                        0
                    } else {
                        (base as u128 - back) as usize
                    }
                } else {
                    let ahead = direction as u128;
                    if (base as u128) + ahead < last as u128 {
                        (base as u128 + ahead) as usize
                    } else {
                        last
                    }
                };
                if next != *selected {
                    select.push(stops[next].id);
                    proof {
                        assert(select@ =~= seq![stops@[next as int].id]);
                    }
                }
            }
            Some(Reaction::handled(select))
        },
        _ => None,
    }
}

/// Focus steps to the next focusable row of the focused panel in direction `dir`.
fn step_focus<P, R, I, X>(
    state: &mut ContextMenuState<P, R>,
    items: &MenuSpec<I, X>,
    submenu_mode: SubmenuOpenMode,
    dir: isize,
) -> (r: Reaction)
    requires
        dir == 1 || dir == -1,
        key_nav_fits(items.spec_nodes(), old(state).focus_path@),
    ensures
        focus_stepped(*old(state), *final(state), r, items.spec_nodes(), submenu_mode, dir as int),
{
    let current = current_nodes(items.nodes(), &state.focus_path);
    let last_idx = if state.focus_path.len() == 0 {
        0
    } else {
        state.focus_path[state.focus_path.len() - 1]
    };
    proof {
        if current@.len() > 0 {
            lemma_unit_scan_fits(current@, last_idx as isize as int, dir as int, current@.len() as nat);
        }
    }
    match next_focusable(current, last_idx, dir) {
        Some(i) => {
            let ghost before = state.focus_path@;
            if state.focus_path.len() == 0 {
                state.focus_path.push(i);
                proof {
                    assert(state.focus_path@ =~= seq![i]);
                }
            } else {
                let last = state.focus_path.len() - 1;
                state.focus_path.set(last, i);
            }
            let fp = copy_path(&state.focus_path);
            sync_open_path_for_focus(state, items, submenu_mode, &fp);
            Reaction::handled(Vec::new())
        },
        None => Reaction::none(),
    }
}

/// Every step of a one-row walk around a non-empty panel fits `isize` once its first step does.
pub proof fn lemma_unit_scan_fits<I, X>(
    nodes: Seq<MenuNode<I, X>>,
    cur: int,
    dir: int,
    remaining: nat,
)
    requires
        0 < nodes.len() <= isize::MAX,
        dir == 1 || dir == -1,
        isize::MIN <= cur + dir <= isize::MAX,
    ensures
        cyclic_scan_fits(nodes, cur, dir, remaining),
    decreases remaining,
{
    if remaining > 0 {
        let next = (cur + dir) % (nodes.len() as int);
        assert(0 <= next < nodes.len());
        lemma_unit_scan_fits(nodes, next, dir, (remaining - 1) as nat);
    }
}

/// Keyboard navigation of the menu, Escape aside: up and down walk the focused panel, right
/// opens the focused submenu or nudges a focused slider, left closes the innermost flyout or
/// nudges a focused slider, and Enter picks the focused row.
pub fn handle_keyboard_nav<P, R, I, X>(
    state: &mut ContextMenuState<P, R>,
    items: &MenuSpec<I, X>,
    submenu_mode: SubmenuOpenMode,
    key: NavKey,
    close_on_select: bool,
) -> (r: Reaction)
    requires
        key == NavKey::ArrowUp || key == NavKey::ArrowDown ==> key_nav_fits(
            items.spec_nodes(),
            old(state).focus_path@,
        ),
    ensures
        key_navigated(
            *old(state),
            *final(state),
            r,
            items.spec_nodes(),
            submenu_mode,
            key,
            close_on_select,
        ),
{
    match key {
        NavKey::ArrowDown => step_focus(state, items, submenu_mode, 1),
        NavKey::ArrowUp => step_focus(state, items, submenu_mode, -1),
        NavKey::ArrowRight => {
            if let Some(nudge) = nudge_focused_slider(state, items, 1) {
                return nudge;
            }
            let is_submenu_row = match node_at_path(items.nodes(), &state.focus_path) {
                Some(MenuNode::Submenu { .. }) => true,
                _ => false,
            };
            if !is_submenu_row {
                return Reaction::none();
            }
            let mut p = copy_path(&state.focus_path);
            state.open_path = copy_path(&p);
            if let Some(children) = submenu_children(items.nodes(), &p) {
                if let Some(ci) = first_focusable(children, None) {
                    p.push(ci);
                    state.focus_path = p;
                }
            }
            Reaction::handled(Vec::new())
        },
        NavKey::ArrowLeft => {
            if let Some(nudge) = nudge_focused_slider(state, items, -1) {
                return nudge;
            }
            if state.focus_path.len() <= 1 {
                return Reaction::none();
            }
            state.focus_path.pop();
            let keep = state.focus_path.len() - 1;
            state.open_path.truncate(keep);
            Reaction::handled(Vec::new())
        },
        NavKey::Enter => {
            if state.focus_path.len() == 0 {
                return Reaction::none();
            }
            let path = copy_path(&state.focus_path);
            let idx = path[path.len() - 1];
            let empty: Vec<MenuNode<I, X>> = Vec::new();
            let parent: &[MenuNode<I, X>] = if path.len() == 1 {
                items.nodes()
            } else {
                let above = &path[0..path.len() - 1];
                proof {
                    assert(above@ =~= path@.drop_last());
                }
                match submenu_children(items.nodes(), above) {
                    Some(children) => children,
                    None => empty.as_slice(),
                }
            };
            proof {
                assert(parent@ =~= parent_panel(items.spec_nodes(), path@));
            }
            activate_row(state, submenu_mode, close_on_select, &path, parent, idx)
        },
        _ => Reaction::none(),
    }
}

/// The ids of the stops a handle crosses going from stop `from` to stop `to`, in order.
pub fn crossed_ids(stops: &Vec<SliderStop>, from: usize, to: usize) -> (ids: Vec<MenuItemId>)
    ensures
        ids@ == crossed(stops@, from as int, to as int),
{
    let mut ids: Vec<MenuItemId> = Vec::new();
    if stops.len() == 0 {
        proof {
            assert(ids@ =~= crossed(stops@, from as int, to as int));
        }
        return ids;
    }
    if from < to {
        let hi = if to < stops.len() {
            to
        } else {
            stops.len() - 1
        };
        if hi <= from {
            proof {
                assert(ids@ =~= crossed(stops@, from as int, to as int));
            }
            return ids;
        }
        let mut k = from;
        while k < hi
            invariant
                from <= k <= hi,
                hi < stops@.len(),
                ids@ =~= Seq::new((k - from) as nat, |i: int| stops@[from + 1 + i].id),
            decreases hi - k,
        {
            k += 1;
            ids.push(stops[k].id);
            proof {
                assert(ids@ =~= Seq::new((k - from) as nat, |i: int| stops@[from + 1 + i].id));
            }
        }
        proof {
            assert(ids@ =~= crossed(stops@, from as int, to as int));
        }
    } else if to < from {
        let top = if from - 1 < stops.len() {
            from - 1
        } else {
            stops.len() - 1
        };
        if top < to {
            proof {
                assert(ids@ =~= crossed(stops@, from as int, to as int));
            }
            return ids;
        }
        let mut k = top + 1;
        while k > to
            invariant
                to <= k <= top + 1,
                top < stops@.len(),
                ids@ =~= Seq::new((top + 1 - k) as nat, |i: int| stops@[top - i].id),
            decreases k,
        {
            k -= 1;
            ids.push(stops[k].id);
            proof {
                assert(ids@ =~= Seq::new((top + 1 - k) as nat, |i: int| stops@[top - i].id));
            }
        }
        proof {
            assert(ids@ =~= crossed(stops@, from as int, to as int));
        }
    } else {
        proof {
            assert(ids@ =~= crossed(stops@, from as int, to as int));
        }
    }
    ids
}

/// Carries on a live drag of a slider on this panel; `index` is the dragged row.
fn drag_slider<P, R, I, X>(
    state: &mut ContextMenuState<P, R>,
    input: PointerInput,
    nodes: &[MenuNode<I, X>],
    index: usize,
) -> (r: Reaction)
    requires
        old(state).slider_drag is Some,
    ensures
        slider_dragged(*old(state), *final(state), r, input, nodes@, index as int),
{
    match input {
        PointerInput::Moved { stop, .. } => {
            let current = match &state.slider_drag {
                Some(drag) => drag.stop,
                None => 0,
            };
            if index < nodes.len() {
                if let MenuNode::Slider { stops, .. } = &nodes[index] {
                    if let Some(s) = stop {
                        if s != current {
                            let select = crossed_ids(stops, current, s);
                            let taken = state.slider_drag.take();
                            if let Some(drag) = taken {
                                state.slider_drag = Some(SliderDrag { path: drag.path, stop: s });
                            }
                            return Reaction::handled(select);
                        }
                    }
                }
            }
            Reaction::captured()
        },
        PointerInput::Released => {
            state.slider_drag = None;
            Reaction::handled(Vec::new())
        },
        _ => Reaction::none(),
    }
}

/// A press on slider row `index` of panel `nodes`; `path` is the row's path.
fn press_slider<P, R, I, X>(
    state: &mut ContextMenuState<P, R>,
    nodes: &[MenuNode<I, X>],
    path: Vec<usize>,
    index: usize,
    stop: Option<usize>,
) -> (r: Reaction)
    ensures
        slider_pressed(*old(state), *final(state), r, nodes@, path@, index as int, stop),
{
    if index >= nodes.len() {
        return Reaction::captured();
    }
    match &nodes[index] {
        MenuNode::Slider { stops, selected, enabled, .. } => {
            if !*enabled {
                return Reaction::captured();
            }
            match stop {
                Some(s) => {
                    let select = crossed_ids(stops, *selected, s);
                    state.slider_drag = Some(SliderDrag { path, stop: s });
                    Reaction::handled(select)
                },
                None => Reaction::captured(),
            }
        },
        _ => Reaction::captured(),
    }
}

/// A pointer event on the panel `nodes`, whose rows' paths start with `prefix`: moving over a
/// row focuses it and lets the open chain follow; pressing a row picks it, or grabs the handle
/// of a slider; a live drag takes every pointer event until it ends.
pub fn update_panel_pointer<P, R, I, X>(
    state: &mut ContextMenuState<P, R>,
    items: &MenuSpec<I, X>,
    submenu_mode: SubmenuOpenMode,
    close_on_select: bool,
    input: PointerInput,
    nodes: &[MenuNode<I, X>],
    prefix: &[usize],
) -> (r: Reaction)
    ensures
        panel_pointed(
            *old(state),
            *final(state),
            r,
            items.spec_nodes(),
            submenu_mode,
            close_on_select,
            input,
            nodes@,
            prefix@,
        ),
{
    let drag_index: Option<Option<usize>> = match &state.slider_drag {
        Some(drag) => {
            if drag.path.len() > 0 && drag.path.len() - 1 == prefix.len() && starts_with(&drag.path, prefix) {
                Some(Some(drag.path[prefix.len()]))
            } else {
                Some(None)
            }
        },
        None => None,
    };
    match drag_index {
        Some(Some(index)) => {
            return drag_slider(state, input, nodes, index);
        },
        Some(None) => {
            return Reaction::none();
        },
        None => {},
    }
    match input {
        PointerInput::Moved { row: Some(idx), .. } => {
            let mut focus = copy_path(prefix);
            focus.push(idx);
            state.focus_path = copy_path(&focus);
            sync_open_path_for_focus(state, items, submenu_mode, &focus);
            Reaction { opened: false, select: Vec::new(), closed: false, capture: false, redraw: true }
        },
        PointerInput::Pressed { row: Some(idx), stop, .. } => {
            let mut path = copy_path(prefix);
            path.push(idx);
            let is_slider = idx < nodes.len() && match &nodes[idx] {
                MenuNode::Slider { .. } => true,
                _ => false,
            };
            if is_slider {
                press_slider(state, nodes, path, idx, stop)
            } else {
                activate_row(state, submenu_mode, close_on_select, &path, nodes, idx)
            }
        },
        _ => Reaction::none(),
    }
}


/// What a menu overlay does with an event. `flyout_depth` is `None` for the root panel and
/// `Some(d)` for the flyout at depth `d`: Escape closes the menu from any panel; a press on the
/// dismiss layer off the root panel closes it unless a slider drag is live; pointer events go to
/// the panel they were hit-tested against; other keys navigate from the root overlay.
pub open spec fn overlay_updated<P, R, I, X>(
    old: ContextMenuState<P, R>,
    new: ContextMenuState<P, R>,
    r: Reaction,
    items: Seq<MenuNode<I, X>>,
    mode: SubmenuOpenMode,
    close_on_select: bool,
    flyout_depth: Option<usize>,
    input: MenuInput,
) -> bool {
    match input {
        MenuInput::Key(NavKey::Escape) => closed_from(old, new) && r@ == reaction(Seq::empty(), true, true, true),
        MenuInput::Key(key) => match flyout_depth {
            None => key_navigated(old, new, r, items, mode, key, close_on_select),
            Some(_) => new == old && r@ == quiet(),
        },
        MenuInput::Pointer(pointer) => match flyout_depth {
            None => if (pointer matches PointerInput::Pressed { outside_panel: true, .. })
                && old.slider_drag is None {
                closed_from(old, new) && r@ == reaction(Seq::empty(), true, true, true)
            } else {
                panel_pointed(old, new, r, items, mode, close_on_select, pointer, items, Seq::empty())
            },
            Some(depth) => {
                let prefix = old.open_path@.subrange(0, depth + 1);
                if old.open_path@.len() <= depth {
                    new == old && r@ == quiet()
                } else {
                    match children_at(items, prefix) {
                        Some(panel) => panel_pointed(
                            old,
                            new,
                            r,
                            items,
                            mode,
                            close_on_select,
                            pointer,
                            panel,
                            prefix,
                        ),
                        None => new == old && r@ == quiet(),
                    }
                }
            },
        },
    }
}

/// Whether an up or down arrow can walk the focused panel without an index leaving `isize`.
pub fn keyboard_nav_fits<P, R, I, X>(state: &ContextMenuState<P, R>, items: &MenuSpec<I, X>) -> (b:
    bool)
    ensures
        b == key_nav_fits(items.spec_nodes(), state.focus_path@),
{
    let panel = current_nodes(items.nodes(), &state.focus_path);
    let last = if state.focus_path.len() == 0 {
        0
    } else {
        state.focus_path[state.focus_path.len() - 1]
    };
    let signed = last as isize;
    panel.len() <= isize::MAX as usize && isize::MIN < signed && signed < isize::MAX
}

/// Hands an event to the overlay of the root panel (`flyout_depth: None`) or of the flyout at
/// depth `d` (`Some(d)`).
pub fn overlay_update<P, R, I, X>(
    state: &mut ContextMenuState<P, R>,
    items: &MenuSpec<I, X>,
    submenu_mode: SubmenuOpenMode,
    close_on_select: bool,
    flyout_depth: Option<usize>,
    input: MenuInput,
) -> (r: Reaction)
    requires
        (input == MenuInput::Key(NavKey::ArrowUp) || input == MenuInput::Key(NavKey::ArrowDown))
            && flyout_depth is None ==> key_nav_fits(items.spec_nodes(), old(state).focus_path@),
    ensures
        overlay_updated(
            *old(state),
            *final(state),
            r,
            items.spec_nodes(),
            submenu_mode,
            close_on_select,
            flyout_depth,
            input,
        ),
{
    match input {
        MenuInput::Key(NavKey::Escape) => handle_escape(state),
        MenuInput::Key(key) => match flyout_depth {
            None => handle_keyboard_nav(state, items, submenu_mode, key, close_on_select),
            Some(_) => Reaction::none(),
        },
        MenuInput::Pointer(pointer) => match flyout_depth {
            None => {
                let dismiss = match pointer {
                    PointerInput::Pressed { outside_panel, .. } => outside_panel
                        && state.slider_drag.is_none(),
                    _ => false,
                };
                if dismiss {
                    handle_escape(state)
                } else {
                    let root: [usize; 0] = [];
                    proof {
                        assert(root@ =~= Seq::<usize>::empty());
                    }
                    update_panel_pointer(
                        state,
                        items,
                        submenu_mode,
                        close_on_select,
                        pointer,
                        items.nodes(),
                        &root,
                    )
                }
            },
            Some(depth) => {
                if state.open_path.len() <= depth {
                    return Reaction::none();
                }
                let prefix = copy_path(&state.open_path[0..depth + 1]);
                match submenu_children(items.nodes(), &prefix) {
                    Some(panel) => update_panel_pointer(
                        state,
                        items,
                        submenu_mode,
                        close_on_select,
                        pointer,
                        panel,
                        &prefix,
                    ),
                    None => Reaction::none(),
                }
            },
        },
    }
}

/// Opens the menu at `anchor`, with focus on its first focusable root row.
pub fn open_menu_at<P, R, I, X>(state: &mut ContextMenuState<P, R>, nodes: &[MenuNode<I, X>], anchor: P) -> (r:
    Reaction)
    ensures
        final(state).open,
        final(state).anchor == anchor,
        final(state).focus_path@ == match first_focusable_spec(nodes@, None) {
            Some(i) => seq![i],
            None => Seq::<usize>::empty(),
        },
        final(state).open_path@.len() == 0,
        final(state).submenu_anchors@.len() == 0,
        final(state).slider_drag is None,
        r@ == (true, Seq::<MenuItemId>::empty(), false, true, true),
{
    state.open = true;
    state.anchor = anchor;
    state.reset_interaction();
    state.ensure_focus(nodes);
    Reaction { opened: true, select: Vec::new(), closed: false, capture: true, redraw: true }
}

/// Which panel an overlay draws, as the key its number fields are stored under: the root is `0`
/// and the flyout at depth `d` is `d + 1`.
pub fn panel_key(flyout_depth: Option<usize>) -> (key: usize)
    requires
        flyout_depth matches Some(d) ==> d < usize::MAX,
    ensures
        key == match flyout_depth {
            None => 0,
            Some(d) => d + 1,
        },
{
    match flyout_depth {
        None => 0,
        Some(d) => d + 1,
    }
}

/// The rows of the panel an overlay draws: the root's, or those of the flyout at depth `d`,
/// which is open when the open path reaches that deep.
pub fn panel_nodes<'a, P, R, I, X>(
    items: &'a MenuSpec<I, X>,
    state: &ContextMenuState<P, R>,
    flyout_depth: Option<usize>,
) -> (r: Option<&'a [MenuNode<I, X>]>)
    ensures
        match flyout_depth {
            None => r matches Some(nodes) && nodes@ == items.spec_nodes(),
            Some(d) => if state.open_path@.len() <= d {
                r is None
            } else {
                match children_at(items.spec_nodes(), state.open_path@.subrange(0, d + 1)) {
                    Some(children) => r matches Some(nodes) && nodes@ == children,
                    None => r is None,
                }
            },
        },
{
    match flyout_depth {
        None => Some(items.nodes()),
        Some(depth) => {
            if state.open_path.len() <= depth {
                return None;
            }
            submenu_children(items.nodes(), &state.open_path[0..depth + 1])
        },
    }
}

/// Path of the slider row a drag is holding, empty when no drag is live.
pub fn drag_path<P, R>(state: &ContextMenuState<P, R>) -> (path: &[usize])
    ensures
        path@ == match state.slider_drag {
            Some(drag) => drag.path@,
            None => Seq::<usize>::empty(),
        },
{
    match &state.slider_drag {
        Some(drag) => drag.path.as_slice(),
        None => {
            let empty: &[usize] = &[];
            proof {
                assert(empty@ =~= Seq::<usize>::empty());
            }
            empty
        },
    }
}

/// The row of the panel whose rows' paths start with `prefix` that a live drag holds, if any:
/// the row the host measures the pointer against while the drag lasts.
pub fn dragged_row<P, R>(state: &ContextMenuState<P, R>, prefix: &[usize]) -> (r: Option<usize>)
    ensures
        r == match state.slider_drag {
            Some(drag) => if drag.path@.len() == prefix@.len() + 1 && is_prefix(prefix@, drag.path@) {
                Some(drag.path@[prefix@.len() as int])
            } else {
                None
            },
            None => None,
        },
{
    match &state.slider_drag {
        Some(drag) => {
            if drag.path.len() > 0 && drag.path.len() - 1 == prefix.len() && starts_with(
                &drag.path,
                prefix,
            ) {
                Some(drag.path[prefix.len()])
            } else {
                None
            }
        },
        None => None,
    }
}

/// The indices of the number rows of a panel, in order.
pub fn number_rows<I, X>(nodes: &[MenuNode<I, X>]) -> (rows: Vec<usize>)
    ensures
        forall|k: int| 0 <= k < rows@.len() ==> rows@[k] < nodes@.len() && nodes@[rows@[k] as int] is Number,
        forall|k: int, l: int| 0 <= k < l < rows@.len() ==> rows@[k] < rows@[l],
        forall|i: int| 0 <= i < nodes@.len() && (#[trigger] nodes@[i]) is Number ==> rows@.contains(i as usize),
{
    let mut rows: Vec<usize> = Vec::new();
    let mut i: usize = 0;
    while i < nodes.len()
        invariant
            i <= nodes@.len(),
            forall|k: int| 0 <= k < rows@.len() ==> rows@[k] < i && nodes@[rows@[k] as int] is Number,
            forall|k: int, l: int| 0 <= k < l < rows@.len() ==> rows@[k] < rows@[l],
            forall|j: int| 0 <= j < i && (#[trigger] nodes@[j]) is Number ==> rows@.contains(j as usize),
        decreases nodes.len() - i,
    {
        if let MenuNode::Number { .. } = &nodes[i] {
            let ghost before = rows@;
            rows.push(i);
            proof {
                assert(rows@ == before.push(i));
                assert forall|j: int| 0 <= j < i + 1 && (#[trigger] nodes@[j]) is Number implies rows@.contains(j as usize) by {
                    if j == i {
                        assert(rows@[rows@.len() - 1] == i);
                    } else {
                        assert(before.contains(j as usize));
                        let k = choose|k: int| 0 <= k < before.len() && before[k] == j as usize;
                        assert(rows@[k] == j as usize);
                    }
                }
            }
        }
        i += 1;
    }
    rows
}

/// Whether a panel draws its icon column: when the menu shows icons, or when a toggle needs the
/// slot for its checkbox.
pub fn icons_column_enabled<I, X>(nodes: &[MenuNode<I, X>], icons_enabled: bool) -> (b: bool)
    ensures
        b == (icons_enabled || exists|i: int| 0 <= i < nodes@.len() && (#[trigger] nodes@[i]) is Toggle),
{
    if icons_enabled {
        return true;
    }
    let mut i: usize = 0;
    while i < nodes.len()
        invariant
            i <= nodes@.len(),
            forall|j: int| 0 <= j < i ==> !((#[trigger] nodes@[j]) is Toggle),
        decreases nodes.len() - i,
    {
        if let MenuNode::Toggle { .. } = &nodes[i] {
            return true;
        }
        i += 1;
    }
    false
}


/// The depth of the flyout an overlay stacks above itself: the first flyout above the root, the
/// next one above a flyout, while the open path reaches that deep and its anchor has been laid
/// out.
pub fn next_flyout<P, R>(state: &ContextMenuState<P, R>, flyout_depth: Option<usize>) -> (r: Option<
    usize,
>)
    ensures
        r == match flyout_depth {
            None => if state.open_path@.len() > 0 && state.submenu_anchors@.len() > 0 {
                Some(0usize)
            } else {
                None
            },
            Some(d) => if d + 1 < state.open_path@.len() && d + 1 < state.submenu_anchors@.len() {
                Some((d + 1) as usize)
            } else {
                None
            },
        },
{
    match flyout_depth {
        None => {
            if state.open_path.len() > 0 && state.submenu_anchors.len() > 0 {
                Some(0)
            } else {
                None
            }
        },
        Some(d) => {
            if d < state.open_path.len() && d < state.submenu_anchors.len() && d + 1
                < state.open_path.len() && d + 1 < state.submenu_anchors.len() {
                Some(d + 1)
            } else {
                None
            }
        },
    }
}

/// Records `anchor` as the anchor of the flyout at depth `index`, padding the list with `filler`
/// up to it.
pub fn set_submenu_anchor<P, R: Copy>(
    state: &mut ContextMenuState<P, R>,
    index: usize,
    anchor: R,
    filler: R,
)
    ensures
        final(state).submenu_anchors@.len() == if index < old(state).submenu_anchors@.len() {
            old(state).submenu_anchors@.len() as int
        } else {
            index + 1
        },
        final(state).submenu_anchors@[index as int] == anchor,
        forall|i: int|
            0 <= i < old(state).submenu_anchors@.len() && i != index ==> (
            #[trigger] final(state).submenu_anchors@[i]) == old(state).submenu_anchors@[i],
        forall|i: int|
            old(state).submenu_anchors@.len() <= i < index ==> (
            #[trigger] final(state).submenu_anchors@[i]) == filler,
        final(state).open == old(state).open,
        final(state).anchor == old(state).anchor,
        final(state).focus_path == old(state).focus_path,
        final(state).open_path == old(state).open_path,
        final(state).slider_drag == old(state).slider_drag,
{
    let ghost before = state.submenu_anchors@;
    while state.submenu_anchors.len() <= index
        invariant
            state.submenu_anchors@.len() >= before.len(),
            state.submenu_anchors@.len() <= if index < before.len() {
                before.len() as int
            } else {
                index + 1
            },
            forall|i: int| 0 <= i < before.len() ==> (#[trigger] state.submenu_anchors@[i]) == before[i],
            forall|i: int|
                before.len() <= i < state.submenu_anchors@.len() ==> (
                #[trigger] state.submenu_anchors@[i]) == filler,
            state.open == old(state).open,
            state.anchor == old(state).anchor,
            state.focus_path == old(state).focus_path,
            state.open_path == old(state).open_path,
            state.slider_drag == old(state).slider_drag,
        decreases index + 1 - state.submenu_anchors.len(),
    {
        state.submenu_anchors.push(filler);
    }
    state.submenu_anchors.set(index, anchor);
}

/// Whether a panel row wears the hover highlight: any row but a separator, a slider or a number
/// row, when the pointer is on it, when the open chain runs through it, or, while the pointer is on
/// no row of the panel, when it has keyboard focus. `row_path` is the row's own path.
pub fn row_highlighted<I, X>(
    node: &MenuNode<I, X>,
    hovered: bool,
    pointer_on_a_row: bool,
    row_path: &[usize],
    focus_path: &[usize],
    open_path: &[usize],
) -> (b: bool)
    ensures
        b == (!(*node is Separator || *node is Slider || *node is Number) && (hovered || (
        open_path@.len() > 0 && is_prefix(row_path@, open_path@)) || (!pointer_on_a_row
            && focus_path@ == row_path@))),
{
    let plain = match node {
        MenuNode::Separator => false,
        MenuNode::Slider { .. } => false,
        MenuNode::Number { .. } => false,
        _ => true,
    };
    let in_chain = open_path.len() > 0 && starts_with(open_path, row_path);
    let focused = focus_path.len() == row_path.len() && starts_with(focus_path, row_path);
    proof {
        if focus_path@.len() == row_path@.len() && is_prefix(row_path@, focus_path@) {
            assert(focus_path@.subrange(0, row_path@.len() as int) =~= focus_path@);
        }
        if focus_path@ == row_path@ {
            assert(focus_path@.subrange(0, row_path@.len() as int) =~= row_path@);
        }
    }
    plain && (hovered || in_chain || (!pointer_on_a_row && focused))
}

} // verus!
