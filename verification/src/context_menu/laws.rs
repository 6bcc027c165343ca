//! Properties of the menu that hold across its operations.

use super::menu::{MenuNode, SliderStop};
use super::nav::{
    activated, closed_from, key_navigated, nudged_stop, overlay_updated, panel_pointed,
    crossed, parent_panel, parent_path, reaction, slider_dragged, slider_pressed, truncated, MenuInput, NavKey, PointerInput,
    Reaction,
};
use super::state::{
    children_at, cyclic_scan, descend, first_focusable_spec, focused_panel, is_focusable,
    is_prefix, lemma_descend_prefix, node_at, open_chain, step_into, synced_open_path,
    lemma_descend_push, lemma_node_at_submenu, lemma_open_chain_opens, ContextMenuState,
    SubmenuOpenMode,
};
use vstd::prelude::*;

verus! {

/// The open path names a chain of submenus: every entry of it is a submenu row of the panel the
/// entries before it open.
pub open spec fn open_path_valid<P, R, I, X>(
    items: Seq<MenuNode<I, X>>,
    state: ContextMenuState<P, R>,
) -> bool {
    descend(items, state.open_path@) is Some
}

/// `path` points at row `idx` of the panel `nodes`, which its other entries open.
pub open spec fn addresses_row<I, X>(
    items: Seq<MenuNode<I, X>>,
    path: Seq<usize>,
    nodes: Seq<MenuNode<I, X>>,
    idx: int,
) -> bool {
    &&& path.len() > 0
    &&& path.last() == idx
    &&& descend(items, path.drop_last()) == Some(nodes)
}

proof fn lemma_parent_opens<I, X>(items: Seq<MenuNode<I, X>>, path: Seq<usize>)
    requires
        descend(items, path) is Some,
    ensures
        descend(items, parent_path(path)) is Some,
{
    if path.len() > 0 {
        assert(path.drop_last() =~= path.subrange(0, path.len() - 1));
        lemma_descend_prefix(items, path, path.len() - 1);
    }
}

proof fn lemma_row_path_opens<I, X>(
    items: Seq<MenuNode<I, X>>,
    path: Seq<usize>,
    nodes: Seq<MenuNode<I, X>>,
    idx: int,
)
    requires
        addresses_row(items, path, nodes, idx),
        0 <= idx < nodes.len(),
        nodes[idx] is Submenu,
    ensures
        descend(items, path) is Some,
{
    lemma_descend_push(items, path.drop_last(), path.last());
    assert(path.drop_last().push(path.last()) =~= path);
}

/// Picking a row keeps the open path a chain of submenus.
pub proof fn lemma_activate_keeps_open_path_valid<P, R, I, X>(
    items: Seq<MenuNode<I, X>>,
    old: ContextMenuState<P, R>,
    new: ContextMenuState<P, R>,
    r: Reaction,
    mode: SubmenuOpenMode,
    close_on_select: bool,
    path: Seq<usize>,
    nodes: Seq<MenuNode<I, X>>,
    idx: int,
)
    requires
        open_path_valid(items, old),
        addresses_row(items, path, nodes, idx),
        activated(old, new, r, mode, close_on_select, path, nodes, idx),
    ensures
        open_path_valid(items, new),
{
    if 0 <= idx < nodes.len() {
        if nodes[idx] is Submenu && mode == SubmenuOpenMode::Click {
            lemma_row_path_opens(items, path, nodes, idx);
            lemma_parent_opens(items, path);
        }
        if closed_from(old, new) {
            assert(new.open_path@ =~= Seq::<usize>::empty());
        }
    }
}

/// A pointer event on a panel whose rows' paths start with `prefix` keeps the open path a chain
/// of submenus.
pub proof fn lemma_pointer_keeps_open_path_valid<P, R, I, X>(
    items: Seq<MenuNode<I, X>>,
    old: ContextMenuState<P, R>,
    new: ContextMenuState<P, R>,
    r: Reaction,
    mode: SubmenuOpenMode,
    close_on_select: bool,
    input: PointerInput,
    nodes: Seq<MenuNode<I, X>>,
    prefix: Seq<usize>,
)
    requires
        open_path_valid(items, old),
        descend(items, prefix) == Some(nodes),
        panel_pointed(old, new, r, items, mode, close_on_select, input, nodes, prefix),
    ensures
        open_path_valid(items, new),
{
    match old.slider_drag {
        Some(drag) => {},
        None => match input {
            PointerInput::Moved { row: Some(idx), .. } => {
                let focus = prefix.push(idx);
                lemma_open_chain_opens(items, focus, mode, is_prefix(focus, old.open_path@));
            },
            PointerInput::Pressed { row: Some(idx), .. } => {
                let path = prefix.push(idx);
                assert(path.drop_last() =~= prefix);
                if !(0 <= idx < nodes.len() && nodes[idx as int] is Slider) {
                    lemma_activate_keeps_open_path_valid(
                        items,
                        old,
                        new,
                        r,
                        mode,
                        close_on_select,
                        path,
                        nodes,
                        idx as int,
                    );
                }
            },
            _ => {},
        },
    }
}

/// A key keeps the open path a chain of submenus.
pub proof fn lemma_key_keeps_open_path_valid<P, R, I, X>(
    items: Seq<MenuNode<I, X>>,
    old: ContextMenuState<P, R>,
    new: ContextMenuState<P, R>,
    r: Reaction,
    mode: SubmenuOpenMode,
    key: NavKey,
    close_on_select: bool,
)
    requires
        open_path_valid(items, old),
        key_navigated(old, new, r, items, mode, key, close_on_select),
    ensures
        open_path_valid(items, new),
{
    let focus = old.focus_path@;
    match key {
        NavKey::ArrowDown | NavKey::ArrowUp => {
            let dir: int = if key == NavKey::ArrowDown {
                1
            } else {
                -1
            };
            if new != old {
                let panel = super::state::focused_panel(items, focus);
                let i = cyclic_scan(panel, super::nav::focus_last(focus) as isize as int, dir, panel.len() as nat)->0;
                let moved = super::nav::focus_moved_to(focus, i as usize);
                lemma_open_chain_opens(items, moved, mode, is_prefix(moved, old.open_path@));
            }
        },
        NavKey::ArrowRight => {
            if focus.len() > 0 {
                lemma_node_at_submenu(items, focus);
            }
        },
        NavKey::ArrowLeft => {
            if focus.len() > 1 {
                let n = focus.len() - 2;
                if n <= old.open_path@.len() {
                    lemma_descend_prefix(items, old.open_path@, n);
                }
                assert(truncated(old.open_path@, n) == old.open_path@ || truncated(
                    old.open_path@,
                    n,
                ) == old.open_path@.subrange(0, n));
            }
        },
        NavKey::Enter => {
            if focus.len() > 0 {
                let nodes = parent_panel(items, focus);
                let idx = focus.last() as int;
                if focus.len() == 1 {
                    assert(focus.drop_last() =~= Seq::<usize>::empty());
                    lemma_activate_keeps_open_path_valid(
                        items,
                        old,
                        new,
                        r,
                        mode,
                        close_on_select,
                        focus,
                        nodes,
                        idx,
                    );
                } else if children_at(items, focus.drop_last()) is Some {
                    lemma_activate_keeps_open_path_valid(
                        items,
                        old,
                        new,
                        r,
                        mode,
                        close_on_select,
                        focus,
                        nodes,
                        idx,
                    );
                }
            }
        },
        _ => {},
    }
}

/// Every event a menu overlay takes keeps its open path a chain of submenus.
pub proof fn lemma_overlay_keeps_open_path_valid<P, R, I, X>(
    items: Seq<MenuNode<I, X>>,
    old: ContextMenuState<P, R>,
    new: ContextMenuState<P, R>,
    r: Reaction,
    mode: SubmenuOpenMode,
    close_on_select: bool,
    flyout_depth: Option<usize>,
    input: MenuInput,
)
    requires
        open_path_valid(items, old),
        overlay_updated(old, new, r, items, mode, close_on_select, flyout_depth, input),
    ensures
        open_path_valid(items, new),
{
    match input {
        MenuInput::Key(NavKey::Escape) => {
            assert(new.open_path@ =~= Seq::<usize>::empty());
        },
        MenuInput::Key(key) => {
            if flyout_depth is None {
                lemma_key_keeps_open_path_valid(items, old, new, r, mode, key, close_on_select);
            }
        },
        MenuInput::Pointer(pointer) => match flyout_depth {
            None => {
                if (pointer matches PointerInput::Pressed { outside_panel: true, .. })
                    && old.slider_drag is None {
                    assert(new.open_path@ =~= Seq::<usize>::empty());
                } else {
                    lemma_pointer_keeps_open_path_valid(
                        items,
                        old,
                        new,
                        r,
                        mode,
                        close_on_select,
                        pointer,
                        items,
                        Seq::empty(),
                    );
                }
            },
            Some(depth) => {
                if old.open_path@.len() > depth {
                    let prefix = old.open_path@.subrange(0, depth + 1);
                    match children_at(items, prefix) {
                        Some(panel) => {
                            lemma_pointer_keeps_open_path_valid(
                                items,
                                old,
                                new,
                                r,
                                mode,
                                close_on_select,
                                pointer,
                                panel,
                                prefix,
                            );
                        },
                        None => {},
                    }
                }
            },
        },
    }
}


// ---------------------------------------------------------------------------------------------
// Keyboard focus steps.
// ---------------------------------------------------------------------------------------------

/// The row a walk from `cur` in steps of `dir` around `m` rows is on after `k` steps.
pub open spec fn visit(cur: int, dir: int, k: int, m: int) -> int {
    (cur + k * dir) % m
}

proof fn lemma_visit_shift(cur: int, dir: int, k: int, m: int)
    requires
        m > 0,
    ensures
        visit((cur + dir) % m, dir, k, m) == visit(cur, dir, k + 1, m),
{
    vstd::arithmetic::div_mod::lemma_add_mod_noop_right(k * dir, cur + dir, m);
    assert(k * dir + (cur + dir) == cur + (k + 1) * dir) by (nonlinear_arith);
}

/// A walk that finds nothing passes only rows focus cannot land on.
proof fn lemma_scan_none<I, X>(nodes: Seq<MenuNode<I, X>>, cur: int, dir: int, rem: nat)
    requires
        nodes.len() > 0,
        cyclic_scan(nodes, cur, dir, rem) is None,
    ensures
        forall|k: int|
            1 <= k <= rem ==> !is_focusable(nodes[#[trigger] visit(cur, dir, k, nodes.len() as int)]),
    decreases rem,
{
    let m = nodes.len() as int;
    if rem > 0 {
        let next = (cur + dir) % m;
        lemma_scan_none(nodes, next, dir, (rem - 1) as nat);
        assert forall|k: int| 1 <= k <= rem implies !is_focusable(
            nodes[#[trigger] visit(cur, dir, k, m)],
        ) by {
            if k == 1 {
                assert(visit(cur, dir, 1, m) == next);
            } else {
                lemma_visit_shift(cur, dir, k - 1, m);
                assert(!is_focusable(nodes[visit(next, dir, k - 1, m)]));
            }
        }
    }
}

/// A walk that finds a row finds it after some `k` steps, passing only rows focus cannot land on.
proof fn lemma_scan_some<I, X>(nodes: Seq<MenuNode<I, X>>, cur: int, dir: int, rem: nat) -> (k: int)
    requires
        nodes.len() > 0,
        cyclic_scan(nodes, cur, dir, rem) is Some,
    ensures
        1 <= k <= rem,
        cyclic_scan(nodes, cur, dir, rem) == Some(visit(cur, dir, k, nodes.len() as int)),
        is_focusable(nodes[visit(cur, dir, k, nodes.len() as int)]),
        forall|j: int|
            1 <= j < k ==> !is_focusable(nodes[#[trigger] visit(cur, dir, j, nodes.len() as int)]),
    decreases rem,
{
    let m = nodes.len() as int;
    let next = (cur + dir) % m;
    assert(visit(cur, dir, 1, m) == next);
    if is_focusable(nodes[next]) {
        1
    } else {
        let k0 = lemma_scan_some(nodes, next, dir, (rem - 1) as nat);
        lemma_visit_shift(cur, dir, k0, m);
        assert forall|j: int| 1 <= j < k0 + 1 implies !is_focusable(
            nodes[#[trigger] visit(cur, dir, j, m)],
        ) by {
            if j > 1 {
                lemma_visit_shift(cur, dir, j - 1, m);
                assert(!is_focusable(nodes[visit(next, dir, j - 1, m)]));
            }
        }
        k0 + 1
    }
}

/// A walk whose `k`-th step is the first on a row focus can land on finds that row.
proof fn lemma_scan_witness<I, X>(nodes: Seq<MenuNode<I, X>>, cur: int, dir: int, rem: nat, k: int)
    requires
        nodes.len() > 0,
        1 <= k <= rem,
        is_focusable(nodes[visit(cur, dir, k, nodes.len() as int)]),
        forall|j: int|
            1 <= j < k ==> !is_focusable(nodes[#[trigger] visit(cur, dir, j, nodes.len() as int)]),
    ensures
        cyclic_scan(nodes, cur, dir, rem) == Some(visit(cur, dir, k, nodes.len() as int)),
    decreases k,
{
    let m = nodes.len() as int;
    let next = (cur + dir) % m;
    assert(visit(cur, dir, 1, m) == next);
    if k > 1 {
        assert(!is_focusable(nodes[visit(cur, dir, 1, m)]));
        lemma_visit_shift(cur, dir, k - 1, m);
        assert forall|j: int| 1 <= j < k - 1 implies !is_focusable(
            nodes[#[trigger] visit(next, dir, j, m)],
        ) by {
            lemma_visit_shift(cur, dir, j, m);
            assert(!is_focusable(nodes[visit(cur, dir, j + 1, m)]));
        }
        lemma_scan_witness(nodes, next, dir, (rem - 1) as nat, k - 1);
    }
}

/// A one-row step reaches row `j` after some number of steps, at most the number of rows.
proof fn lemma_visit_reaches(cur: int, dir: int, m: int, j: int) -> (k: int)
    requires
        m > 0,
        dir == 1 || dir == -1,
        0 <= j < m,
    ensures
        1 <= k <= m,
        visit(cur, dir, k, m) == j,
{
    let c = cur % m;
    vstd::arithmetic::div_mod::lemma_fundamental_div_mod(cur, m);
    let q = cur / m;
    let k = if dir == 1 {
        if j > c {
            j - c
        } else {
            j - c + m
        }
    } else {
        if c > j {
            c - j
        } else {
            c - j + m
        }
    };
    let qq = if dir == 1 {
        if j > c {
            q
        } else {
            q + 1
        }
    } else {
        if c > j {
            q
        } else {
            q - 1
        }
    };
    if dir == 1 {
        assert(k * dir == k) by (nonlinear_arith)
            requires
                dir == 1,
        ;
    } else {
        assert(k * dir == -k) by (nonlinear_arith)
            requires
                dir == -1,
        ;
    }
    assert(cur == m * q + c);
    if qq == q + 1 {
        assert(m * qq == m * q + m) by (nonlinear_arith)
            requires
                qq == q + 1,
        ;
    } else if qq == q - 1 {
        assert(m * qq == m * q - m) by (nonlinear_arith)
            requires
                qq == q - 1,
        ;
    }
    assert(cur + k * dir == m * qq + j);
    vstd::arithmetic::div_mod::lemma_mod_multiples_vanish(qq, j, m);
    vstd::arithmetic::div_mod::lemma_small_mod(j as nat, m as nat);
    k
}

/// Keyboard focus lands on a row it can land on, and finds one whenever the panel has one: a
/// one-row step around a panel of `nodes` from `cur` finds a row exactly when some row of the
/// panel can take focus, and the row it finds can.
pub proof fn lemma_focus_step_lands<I, X>(nodes: Seq<MenuNode<I, X>>, cur: int, dir: int)
    requires
        nodes.len() > 0,
        dir == 1 || dir == -1,
    ensures
        match cyclic_scan(nodes, cur, dir, nodes.len() as nat) {
            Some(i) => 0 <= i < nodes.len() && is_focusable(nodes[i]),
            None => forall|j: int| 0 <= j < nodes.len() ==> !is_focusable(#[trigger] nodes[j]),
        },
{
    let m = nodes.len() as int;
    match cyclic_scan(nodes, cur, dir, m as nat) {
        Some(i) => {
            let k = lemma_scan_some(nodes, cur, dir, m as nat);
        },
        None => {
            lemma_scan_none(nodes, cur, dir, m as nat);
            assert forall|j: int| 0 <= j < m implies !is_focusable(#[trigger] nodes[j]) by {
                let k = lemma_visit_reaches(cur, dir, m, j);
                assert(!is_focusable(nodes[visit(cur, dir, k, m)]));
            }
        },
    }
}

/// A step one way undoes a step the other way: from a row focus can land on, stepping by `dir`
/// and then by `-dir` returns to that row.
pub proof fn lemma_focus_step_undo<I, X>(nodes: Seq<MenuNode<I, X>>, f: int, dir: int)
    requires
        0 <= f < nodes.len(),
        dir == 1 || dir == -1,
        is_focusable(nodes[f]),
    ensures
        cyclic_scan(nodes, f, dir, nodes.len() as nat) matches Some(g) && cyclic_scan(
            nodes,
            g,
            -dir,
            nodes.len() as nat,
        ) == Some(f),
{
    let m = nodes.len() as int;
    lemma_focus_step_lands(nodes, f, dir);
    let k = lemma_scan_some(nodes, f, dir, m as nat);
    let g = visit(f, dir, k, m);
    vstd::arithmetic::div_mod::lemma_fundamental_div_mod(f + k * dir, m);
    let q = (f + k * dir) / m;
    assert(g == f + k * dir - m * q);
    assert forall|j: int| 1 <= j <= k implies #[trigger] visit(g, -dir, j, m) == visit(f, dir, k - j, m) by {
        assert(g + j * (-dir) == m * (-q) + (f + (k - j) * dir)) by (nonlinear_arith)
            requires
                g == f + k * dir - m * q,
        ;
        vstd::arithmetic::div_mod::lemma_mod_multiples_vanish(-q, f + (k - j) * dir, m);
    }
    assert(visit(f, dir, 0, m) == f) by {
        vstd::arithmetic::div_mod::lemma_small_mod(f as nat, m as nat);
    }
    assert(visit(g, -dir, k, m) == f);
    assert forall|j: int| 1 <= j < k implies !is_focusable(nodes[#[trigger] visit(g, -dir, j, m)]) by {
        assert(visit(g, -dir, j, m) == visit(f, dir, k - j, m));
        assert(!is_focusable(nodes[visit(f, dir, k - j, m)]));
    }
    lemma_scan_witness(nodes, g, -dir, m as nat, k);
}

/// Down then Up (or Up then Down) puts keyboard focus back on the row it was on, when that row
/// could take focus.
pub proof fn lemma_arrows_restore_focus<P, R, I, X>(
    items: Seq<MenuNode<I, X>>,
    s0: ContextMenuState<P, R>,
    s1: ContextMenuState<P, R>,
    s2: ContextMenuState<P, R>,
    r1: Reaction,
    r2: Reaction,
    mode: SubmenuOpenMode,
    close_on_select: bool,
    first: NavKey,
    second: NavKey,
)
    requires
        (first == NavKey::ArrowDown && second == NavKey::ArrowUp) || (first == NavKey::ArrowUp
            && second == NavKey::ArrowDown),
        key_navigated(s0, s1, r1, items, mode, first, close_on_select),
        key_navigated(s1, s2, r2, items, mode, second, close_on_select),
        s0.focus_path@.len() > 0,
        super::state::focused_panel(items, s0.focus_path@).len() <= isize::MAX,
        s0.focus_path@.last() < super::state::focused_panel(items, s0.focus_path@).len(),
        is_focusable(
            super::state::focused_panel(items, s0.focus_path@)[s0.focus_path@.last() as int],
        ),
    ensures
        s2.focus_path@ == s0.focus_path@,
{
    let focus = s0.focus_path@;
    let panel = super::state::focused_panel(items, focus);
    let f = focus.last() as int;
    let dir: int = if first == NavKey::ArrowDown {
        1
    } else {
        -1
    };
    assert(f as usize as isize as int == f);
    lemma_focus_step_undo(panel, f, dir);
    let g = cyclic_scan(panel, f, dir, panel.len() as nat)->0;
    lemma_focus_step_lands(panel, f, dir);
    let moved = super::nav::focus_moved_to(focus, g as usize);
    assert(s1.focus_path@ == moved);
    assert(moved.drop_last() =~= focus.drop_last());
    assert(super::state::focused_panel(items, moved) == panel);
    assert(super::nav::focus_last(moved) == g as usize);
    assert(g as usize as isize as int == g);
    assert(s2.focus_path@ == super::nav::focus_moved_to(moved, f as usize));
    assert(s2.focus_path@ =~= focus);
}

// ---------------------------------------------------------------------------------------------
// Slider nudges.
// ---------------------------------------------------------------------------------------------

/// An arrow key never moves a slider's handle off its track, and moves it at most one stop.
pub proof fn lemma_nudge_on_track(len: int, selected: int, dir: int)
    requires
        len > 0,
        0 <= selected,
        dir == 1 || dir == -1,
    ensures
        0 <= nudged_stop(len, selected, dir) < len,
        selected < len ==> -1 <= nudged_stop(len, selected, dir) - selected <= 1,
{
}

/// The arrow keys undo each other on a slider: one stop right and back left returns the handle
/// to where it rested, unless it rested on the last stop; likewise left then right, unless on
/// the first.
pub proof fn lemma_nudge_undo(len: int, selected: int)
    requires
        0 <= selected < len,
    ensures
        selected < len - 1 ==> nudged_stop(len, nudged_stop(len, selected, 1), -1) == selected,
        selected > 0 ==> nudged_stop(len, nudged_stop(len, selected, -1), 1) == selected,
{
}


// ---------------------------------------------------------------------------------------------
// Picking rows.
// ---------------------------------------------------------------------------------------------

/// In click mode, clicking a closed submenu row opens its submenu, and clicking it again closes
/// it down to the panel the row is on.
pub proof fn lemma_click_submenu_twice<P, R, I, X>(
    s0: ContextMenuState<P, R>,
    s1: ContextMenuState<P, R>,
    s2: ContextMenuState<P, R>,
    r1: Reaction,
    r2: Reaction,
    close_on_select: bool,
    path: Seq<usize>,
    nodes: Seq<MenuNode<I, X>>,
    idx: int,
)
    requires
        0 <= idx < nodes.len(),
        nodes[idx] is Submenu,
        s0.open_path@ != path,
        activated(s0, s1, r1, SubmenuOpenMode::Click, close_on_select, path, nodes, idx),
        activated(s1, s2, r2, SubmenuOpenMode::Click, close_on_select, path, nodes, idx),
    ensures
        s1.open_path@ == path,
        s2.open_path@ == parent_path(path),
        s2.focus_path@ == s0.focus_path@,
        s2.open == s0.open,
{
}

/// A toggle row never closes the menu, whatever `close_on_select` says: it reports its id and
/// leaves the state as it was, so the new checkbox can be seen.
pub proof fn lemma_toggle_keeps_menu_open<P, R, I, X>(
    s0: ContextMenuState<P, R>,
    s1: ContextMenuState<P, R>,
    r: Reaction,
    mode: SubmenuOpenMode,
    close_on_select: bool,
    path: Seq<usize>,
    nodes: Seq<MenuNode<I, X>>,
    idx: int,
)
    requires
        0 <= idx < nodes.len(),
        nodes[idx] matches MenuNode::Toggle { enabled: true, .. },
        activated(s0, s1, r, mode, close_on_select, path, nodes, idx),
    ensures
        s1 == s0,
        !r.closed,
        r.select@ == seq![nodes[idx]->Toggle_id],
{
}

/// In hover mode a click on a submenu row changes nothing: hovering is what opens it.
pub proof fn lemma_hover_mode_click_inert<P, R, I, X>(
    s0: ContextMenuState<P, R>,
    s1: ContextMenuState<P, R>,
    r: Reaction,
    close_on_select: bool,
    path: Seq<usize>,
    nodes: Seq<MenuNode<I, X>>,
    idx: int,
)
    requires
        0 <= idx < nodes.len(),
        nodes[idx] is Submenu,
        activated(s0, s1, r, SubmenuOpenMode::Hover, close_on_select, path, nodes, idx),
    ensures
        s1 == s0,
        !r.capture,
{
}

// ---------------------------------------------------------------------------------------------
// Slider drags.
// ---------------------------------------------------------------------------------------------

/// A drag reports a stop only as the handle crosses it, and the menu stays open while the value
/// is dialled in: moving the held handle to a stop never closes the menu, and moving it again to
/// the same stop reports nothing and changes nothing.
pub proof fn lemma_drag_reports_stop_once<P, R, I, X>(
    s0: ContextMenuState<P, R>,
    s1: ContextMenuState<P, R>,
    s2: ContextMenuState<P, R>,
    r1: Reaction,
    r2: Reaction,
    row1: Option<usize>,
    row2: Option<usize>,
    stop: usize,
    nodes: Seq<MenuNode<I, X>>,
    index: int,
)
    requires
        s0.slider_drag is Some,
        slider_dragged(s0, s1, r1, PointerInput::Moved { row: row1, stop: Some(stop) }, nodes, index),
        slider_dragged(s1, s2, r2, PointerInput::Moved { row: row2, stop: Some(stop) }, nodes, index),
    ensures
        s1.open == s0.open,
        !r1.closed,
        s2 == s1,
        r2@ == reaction(Seq::empty(), false, true, false),
{
}

/// A handle reports each stop it crosses once, in order, however the moves are split: going from
/// stop `a` to stop `b` and then on, the same way, to stop `c` reports just what going from `a`
/// to `c` at once reports, one id for each stop between them.
pub proof fn lemma_crossed_in_steps(stops: Seq<SliderStop>, a: int, b: int, c: int)
    requires
        0 <= a < stops.len(),
        0 <= b < stops.len(),
        0 <= c < stops.len(),
        (a <= b <= c) || (c <= b <= a),
    ensures
        crossed(stops, a, b) + crossed(stops, b, c) == crossed(stops, a, c),
        crossed(stops, a, c).len() == if a <= c { c - a } else { a - c },
{
    assert(crossed(stops, a, b) + crossed(stops, b, c) =~= crossed(stops, a, c));
}

// ---------------------------------------------------------------------------------------------
// Left arrow, disabled rows and disabled sliders.
// ---------------------------------------------------------------------------------------------

/// Left closes only the innermost flyout: from a focus `f` at least two rows deep, not on an
/// enabled slider, focus moves to the row that opened its panel, and the open path keeps its
/// first `|f| - 2` entries, so the panel now holding focus stays open.
pub proof fn lemma_left_closes_innermost_flyout<P, R, I, X>(
    items: Seq<MenuNode<I, X>>,
    old: ContextMenuState<P, R>,
    new: ContextMenuState<P, R>,
    r: Reaction,
    mode: SubmenuOpenMode,
    close_on_select: bool,
)
    requires
        key_navigated(old, new, r, items, mode, NavKey::ArrowLeft, close_on_select),
        old.focus_path@.len() >= 2,
        !(node_at(items, old.focus_path@) is Some && node_at(items, old.focus_path@)->0 is Slider
            && node_at(items, old.focus_path@)->0->Slider_enabled),
    ensures
        new.focus_path@ == old.focus_path@.subrange(0, old.focus_path@.len() - 1),
        new.open_path@ == old.open_path@.subrange(
            0,
            if old.open_path@.len() < old.focus_path@.len() - 2 {
                old.open_path@.len() as int
            } else {
                old.focus_path@.len() - 2
            },
        ),
        new.open == old.open,
        r.select@.len() == 0,
        r.capture,
        r.redraw,
        !r.closed,
{
    let f = old.focus_path@;
    assert(f.drop_last() =~= f.subrange(0, f.len() - 1));
    if old.open_path@.len() < f.len() - 2 {
        assert(old.open_path@.subrange(0, old.open_path@.len() as int) =~= old.open_path@);
    }
}

/// A disabled row does nothing when picked: a disabled action or toggle reports no id, closes
/// nothing, leaves the event alone and changes no state.
pub proof fn lemma_disabled_row_is_inert<P, R, I, X>(
    old: ContextMenuState<P, R>,
    new: ContextMenuState<P, R>,
    r: Reaction,
    mode: SubmenuOpenMode,
    close_on_select: bool,
    path: Seq<usize>,
    nodes: Seq<MenuNode<I, X>>,
    idx: int,
)
    requires
        activated(old, new, r, mode, close_on_select, path, nodes, idx),
        0 <= idx < nodes.len(),
        (nodes[idx] is Action && !nodes[idx]->Action_enabled) || (nodes[idx] is Toggle
            && !nodes[idx]->Toggle_enabled),
    ensures
        new == old,
        r.select@.len() == 0,
        !r.closed,
        !r.capture,
        !r.redraw,
{
}

/// Pressing a disabled action or toggle row of the root panel does nothing: no id is reported,
/// nothing is captured and the state stays as it was.
pub proof fn lemma_press_on_disabled_row<P, R, I, X>(
    items: Seq<MenuNode<I, X>>,
    old: ContextMenuState<P, R>,
    new: ContextMenuState<P, R>,
    r: Reaction,
    mode: SubmenuOpenMode,
    close_on_select: bool,
    row: usize,
    stop: Option<usize>,
)
    requires
        overlay_updated(
            old,
            new,
            r,
            items,
            mode,
            close_on_select,
            None,
            MenuInput::Pointer(PointerInput::Pressed { row: Some(row), stop, outside_panel: false }),
        ),
        old.slider_drag is None,
        row < items.len(),
        (items[row as int] is Action && !items[row as int]->Action_enabled) || (items[row as int] is Toggle
            && !items[row as int]->Toggle_enabled),
    ensures
        new == old,
        r.select@.len() == 0,
        !r.capture,
{
}

/// Enter on a focused disabled action or toggle does nothing.
pub proof fn lemma_enter_on_disabled_row<P, R, I, X>(
    items: Seq<MenuNode<I, X>>,
    old: ContextMenuState<P, R>,
    new: ContextMenuState<P, R>,
    r: Reaction,
    mode: SubmenuOpenMode,
    close_on_select: bool,
)
    requires
        key_navigated(old, new, r, items, mode, NavKey::Enter, close_on_select),
        old.focus_path@.len() == 1,
        old.focus_path@[0] < items.len(),
        (items[old.focus_path@[0] as int] is Action && !items[old.focus_path@[0] as int]->Action_enabled)
            || (items[old.focus_path@[0] as int] is Toggle
            && !items[old.focus_path@[0] as int]->Toggle_enabled),
    ensures
        new == old,
        r.select@.len() == 0,
        !r.capture,
{
    assert(old.focus_path@.last() == old.focus_path@[0]);
}

/// A disabled slider cannot be grabbed: a press on it starts no drag, reports no stop and
/// changes no state, whatever stop the press landed on.
pub proof fn lemma_press_on_disabled_slider<P, R, I, X>(
    items: Seq<MenuNode<I, X>>,
    old: ContextMenuState<P, R>,
    new: ContextMenuState<P, R>,
    r: Reaction,
    mode: SubmenuOpenMode,
    close_on_select: bool,
    row: usize,
    stop: Option<usize>,
)
    requires
        overlay_updated(
            old,
            new,
            r,
            items,
            mode,
            close_on_select,
            None,
            MenuInput::Pointer(PointerInput::Pressed { row: Some(row), stop, outside_panel: false }),
        ),
        old.slider_drag is None,
        row < items.len(),
        items[row as int] is Slider,
        !items[row as int]->Slider_enabled,
    ensures
        new == old,
        new.slider_drag is None,
        r.select@.len() == 0,
        !r.redraw,
{
}

/// The arrow keys do not move a disabled slider: with one focused, Left and Right report no
/// stop; Right changes nothing and leaves the event alone, and Left changes nothing on the root
/// panel (deeper in, it closes the innermost flyout as usual).
pub proof fn lemma_arrows_skip_disabled_slider<P, R, I, X>(
    items: Seq<MenuNode<I, X>>,
    old: ContextMenuState<P, R>,
    new: ContextMenuState<P, R>,
    r: Reaction,
    mode: SubmenuOpenMode,
    key: NavKey,
    close_on_select: bool,
)
    requires
        key == NavKey::ArrowLeft || key == NavKey::ArrowRight,
        key_navigated(old, new, r, items, mode, key, close_on_select),
        node_at(items, old.focus_path@) is Some,
        node_at(items, old.focus_path@)->0 is Slider,
        !node_at(items, old.focus_path@)->0->Slider_enabled,
    ensures
        r.select@.len() == 0,
        key == NavKey::ArrowRight ==> new == old && !r.capture,
        key == NavKey::ArrowLeft && old.focus_path@.len() <= 1 ==> new == old && !r.capture,
{
}

// ---------------------------------------------------------------------------------------------
// What each key, pick and pointer event does, stated over rows.
// ---------------------------------------------------------------------------------------------

/// Down and Up walk the focused panel in row order: from focused row `i`, Down lands on row
/// `i + 1` and Up on row `i - 1` whenever focus can land there, and the rest of the focus path
/// stays as it was.
pub proof fn lemma_arrows_follow_row_order<P, R, I, X>(
    items: Seq<MenuNode<I, X>>,
    old: ContextMenuState<P, R>,
    new: ContextMenuState<P, R>,
    r: Reaction,
    mode: SubmenuOpenMode,
    key: NavKey,
    close_on_select: bool,
)
    requires
        key_navigated(old, new, r, items, mode, key, close_on_select),
        old.focus_path@.len() > 0,
        old.focus_path@.last() < focused_panel(items, old.focus_path@).len() <= isize::MAX,
    ensures
        ({
            let f = old.focus_path@;
            let panel = focused_panel(items, f);
            let i = f.last() as int;
            &&& key == NavKey::ArrowDown && i + 1 < panel.len() && is_focusable(panel[i + 1])
                ==> new.focus_path@ == f.update(f.len() - 1, (i + 1) as usize) && r.capture
            &&& key == NavKey::ArrowUp && 1 <= i && is_focusable(panel[i - 1]) ==> new.focus_path@
                == f.update(f.len() - 1, (i - 1) as usize) && r.capture
        }),
{
    let f = old.focus_path@;
    let panel = focused_panel(items, f);
    let i = f.last() as int;
    assert(super::nav::focus_last(f) as isize as int == i);
    if key == NavKey::ArrowDown && i + 1 < panel.len() && is_focusable(panel[i + 1]) {
        vstd::arithmetic::div_mod::lemma_small_mod((i + 1) as nat, panel.len() as nat);
        assert(cyclic_scan(panel, i, 1, panel.len() as nat) == Some(i + 1));
    }
    if key == NavKey::ArrowUp && 1 <= i && is_focusable(panel[i - 1]) {
        vstd::arithmetic::div_mod::lemma_small_mod((i - 1) as nat, panel.len() as nat);
        assert(cyclic_scan(panel, i, -1, panel.len() as nat) == Some(i - 1));
    }
}

/// The first row of `nodes` focus can land on, when there is one, comes before every other.
proof fn lemma_first_focusable_is_first<I, X>(nodes: Seq<MenuNode<I, X>>, i: int)
    requires
        0 <= i < nodes.len() <= usize::MAX,
        is_focusable(nodes[i]),
    ensures
        first_focusable_spec(nodes, None) matches Some(k) && k <= i && is_focusable(nodes[k as int])
            && forall|j: int| 0 <= j < k ==> !is_focusable(#[trigger] nodes[j]),
    decreases i,
{
    if exists|j: int| 0 <= j < i && is_focusable(#[trigger] nodes[j]) {
        let j = choose|j: int| 0 <= j < i && is_focusable(#[trigger] nodes[j]);
        lemma_first_focusable_is_first(nodes, j);
        assert(first_focusable_spec(nodes, None) is Some);
    } else {
        let skip: Option<usize> = None;
        assert(forall|j: int| 0 <= j < i ==> skip == Some(j as usize) || !is_focusable(
            #[trigger] nodes[j],
        ));
        assert(exists|k: int|
            0 <= k < nodes.len() && skip != Some(k as usize) && is_focusable(#[trigger] nodes[k])
                && forall|j: int| 0 <= j < k ==> skip == Some(j as usize) || !is_focusable(
                #[trigger] nodes[j],
            ));
        assert(first_focusable_spec(nodes, skip) is Some);
        let k = first_focusable_spec(nodes, skip)->0 as int;
        assert(0 <= k < nodes.len());
        assert(is_focusable(nodes[k]));
        assert(forall|j: int| 0 <= j < k ==> !is_focusable(#[trigger] nodes[j]));
        if i < k {
            assert(!is_focusable(nodes[i]));
        }
        assert(k <= i);
    }
}

/// Right on a focused submenu row opens that submenu and moves focus onto its first row focus
/// can land on; focus stays on the submenu row when none of its rows can take focus.
pub proof fn lemma_right_opens_focused_submenu<P, R, I, X>(
    items: Seq<MenuNode<I, X>>,
    old: ContextMenuState<P, R>,
    new: ContextMenuState<P, R>,
    r: Reaction,
    mode: SubmenuOpenMode,
    close_on_select: bool,
)
    requires
        key_navigated(old, new, r, items, mode, NavKey::ArrowRight, close_on_select),
        node_at(items, old.focus_path@) is Some,
        node_at(items, old.focus_path@)->0 is Submenu,
        node_at(items, old.focus_path@)->0->Submenu_children@.len() <= usize::MAX,
    ensures
        ({
            let f = old.focus_path@;
            let children = node_at(items, f)->0->Submenu_children@;
            &&& new.open_path@ == f
            &&& r.capture && r.redraw && !r.closed && r.select@.len() == 0
            &&& (exists|j: int| 0 <= j < children.len() && is_focusable(#[trigger] children[j]))
                ==> {
                &&& new.focus_path@.len() == f.len() + 1
                &&& new.focus_path@.subrange(0, f.len() as int) == f
                &&& new.focus_path@.last() < children.len()
                &&& is_focusable(children[new.focus_path@.last() as int])
                &&& forall|j: int|
                    0 <= j < new.focus_path@.last() ==> !is_focusable(#[trigger] children[j])
            }
            &&& (forall|j: int| 0 <= j < children.len() ==> !is_focusable(#[trigger] children[j]))
                ==> new.focus_path@ == f
        }),
{
    let f = old.focus_path@;
    lemma_node_at_submenu(items, f);
    lemma_descend_submenu_children(items, f);
    let children = node_at(items, f)->0->Submenu_children@;
    assert(children_at(items, f) == Some(children));
    if exists|j: int| 0 <= j < children.len() && is_focusable(#[trigger] children[j]) {
        let j = choose|j: int| 0 <= j < children.len() && is_focusable(#[trigger] children[j]);
        lemma_first_focusable_is_first(children, j);
        let ci = first_focusable_spec(children, None)->0;
        assert(new.focus_path@ == f.push(ci));
        assert(f.push(ci).subrange(0, f.len() as int) =~= f);
    } else {
        assert(first_focusable_spec(children, None) is None);
    }
}

/// The rows a submenu row opens are that row's own children.
proof fn lemma_descend_submenu_children<I, X>(nodes: Seq<MenuNode<I, X>>, path: Seq<usize>)
    requires
        path.len() > 0,
        node_at(nodes, path) is Some,
        node_at(nodes, path)->0 is Submenu,
    ensures
        descend(nodes, path) == Some(node_at(nodes, path)->0->Submenu_children@),
    decreases path.len(),
{
    if path.len() == 1 {
        assert(path.drop_first() =~= Seq::<usize>::empty());
        let children = node_at(nodes, path)->0->Submenu_children@;
        assert(super::state::step_into(nodes, path[0] as int) == Some(children));
        assert(descend(children, path.drop_first()) == Some(children));
    } else {
        let children = super::state::step_into(nodes, path[0] as int)->0;
        assert(node_at(nodes, path) == node_at(children, path.drop_first()));
        lemma_descend_submenu_children(children, path.drop_first());
        assert(descend(nodes, path) == descend(children, path.drop_first()));
    }
}

/// Picking an enabled action reports its id; with `close_on_select` the menu closes and forgets
/// focus and open submenus, without it nothing changes.
pub proof fn lemma_pick_enabled_action<P, R, I, X>(
    old: ContextMenuState<P, R>,
    new: ContextMenuState<P, R>,
    r: Reaction,
    mode: SubmenuOpenMode,
    close_on_select: bool,
    path: Seq<usize>,
    nodes: Seq<MenuNode<I, X>>,
    idx: int,
)
    requires
        activated(old, new, r, mode, close_on_select, path, nodes, idx),
        0 <= idx < nodes.len(),
        nodes[idx] is Action,
        nodes[idx]->Action_enabled,
    ensures
        r.select@ == seq![nodes[idx]->Action_id],
        r.closed == close_on_select,
        r.capture,
        close_on_select ==> !new.open && new.focus_path@.len() == 0 && new.open_path@.len() == 0
            && new.slider_drag is None,
        !close_on_select ==> new == old,
{
}

/// Escape closes the menu from any panel: nothing stays open, focused or dragged, and the close
/// is reported.
pub proof fn lemma_escape_closes<P, R, I, X>(
    items: Seq<MenuNode<I, X>>,
    old: ContextMenuState<P, R>,
    new: ContextMenuState<P, R>,
    r: Reaction,
    mode: SubmenuOpenMode,
    close_on_select: bool,
    flyout_depth: Option<usize>,
)
    requires
        overlay_updated(
            old,
            new,
            r,
            items,
            mode,
            close_on_select,
            flyout_depth,
            MenuInput::Key(NavKey::Escape),
        ),
    ensures
        !new.open,
        new.focus_path@.len() == 0,
        new.open_path@.len() == 0,
        new.submenu_anchors@.len() == 0,
        new.slider_drag is None,
        r.closed,
        r.capture,
        r.select@.len() == 0,
{
}

/// A press on the dismiss layer off the root panel closes the menu, unless a slider drag is
/// live, in which case the menu stays open.
pub proof fn lemma_press_outside_closes_unless_dragging<P, R, I, X>(
    items: Seq<MenuNode<I, X>>,
    old: ContextMenuState<P, R>,
    new: ContextMenuState<P, R>,
    r: Reaction,
    mode: SubmenuOpenMode,
    close_on_select: bool,
    row: Option<usize>,
    stop: Option<usize>,
)
    requires
        overlay_updated(
            old,
            new,
            r,
            items,
            mode,
            close_on_select,
            None,
            MenuInput::Pointer(PointerInput::Pressed { row, stop, outside_panel: true }),
        ),
    ensures
        old.slider_drag is None ==> !new.open && new.focus_path@.len() == 0
            && new.open_path@.len() == 0 && r.closed && r.select@.len() == 0,
        old.slider_drag is Some ==> new.open == old.open && !r.closed,
{
}

/// Moving the pointer onto row `i` of a panel whose rows' paths start with `prefix` focuses that
/// row, while no drag is live; nothing is reported or captured.
pub proof fn lemma_pointer_move_focuses_row<P, R, I, X>(
    items: Seq<MenuNode<I, X>>,
    old: ContextMenuState<P, R>,
    new: ContextMenuState<P, R>,
    r: Reaction,
    mode: SubmenuOpenMode,
    close_on_select: bool,
    i: usize,
    stop: Option<usize>,
    nodes: Seq<MenuNode<I, X>>,
    prefix: Seq<usize>,
)
    requires
        panel_pointed(
            old,
            new,
            r,
            items,
            mode,
            close_on_select,
            PointerInput::Moved { row: Some(i), stop },
            nodes,
            prefix,
        ),
        old.slider_drag is None,
    ensures
        new.focus_path@ == prefix.push(i),
        descend(items, prefix) is Some ==> new.open_path@ == if node_at(items, prefix.push(i))
            is Some && node_at(items, prefix.push(i))->0 is Submenu && (mode
            == SubmenuOpenMode::Hover || is_prefix(prefix.push(i), old.open_path@)) {
            prefix.push(i)
        } else {
            prefix
        },
        new.open == old.open,
        new.slider_drag is None,
        r.select@.len() == 0,
        !r.capture,
        r.redraw,
{
    if descend(items, prefix) is Some {
        assert(prefix.push(i).drop_last() =~= prefix);
        lemma_open_path_follows_focus(items, prefix.push(i), mode, old.open_path@);
    }
}

/// An arrow key on a focused enabled slider resting on a stop moves the handle one stop that
/// way when there is one, and reports that stop's id; the menu state stays as it was.
pub proof fn lemma_arrows_nudge_enabled_slider<P, R, I, X>(
    items: Seq<MenuNode<I, X>>,
    old: ContextMenuState<P, R>,
    new: ContextMenuState<P, R>,
    r: Reaction,
    mode: SubmenuOpenMode,
    key: NavKey,
    close_on_select: bool,
)
    requires
        key == NavKey::ArrowLeft || key == NavKey::ArrowRight,
        key_navigated(old, new, r, items, mode, key, close_on_select),
        node_at(items, old.focus_path@) is Some,
        node_at(items, old.focus_path@)->0 is Slider,
        node_at(items, old.focus_path@)->0->Slider_enabled,
        node_at(items, old.focus_path@)->0->Slider_selected
            < node_at(items, old.focus_path@)->0->Slider_stops@.len(),
    ensures
        ({
            let node = node_at(items, old.focus_path@)->0;
            let stops = node->Slider_stops@;
            let s = node->Slider_selected as int;
            &&& new == old
            &&& r.capture && !r.closed
            &&& key == NavKey::ArrowRight && s + 1 < stops.len() ==> r.select@ == seq![stops[s + 1].id]
            &&& key == NavKey::ArrowLeft && s >= 1 ==> r.select@ == seq![stops[s - 1].id]
            &&& key == NavKey::ArrowRight && s + 1 == stops.len() ==> r.select@.len() == 0
            &&& key == NavKey::ArrowLeft && s == 0 ==> r.select@.len() == 0
        }),
{
}

/// Releasing the button ends a drag held on this panel; the menu stays open.
pub proof fn lemma_release_ends_drag<P, R, I, X>(
    items: Seq<MenuNode<I, X>>,
    old: ContextMenuState<P, R>,
    new: ContextMenuState<P, R>,
    r: Reaction,
    mode: SubmenuOpenMode,
    close_on_select: bool,
    nodes: Seq<MenuNode<I, X>>,
    prefix: Seq<usize>,
)
    requires
        panel_pointed(old, new, r, items, mode, close_on_select, PointerInput::Released, nodes, prefix),
        old.slider_drag matches Some(d) && d.path@.len() == prefix.len() + 1 && is_prefix(
            prefix,
            d.path@,
        ),
    ensures
        new.slider_drag is None,
        new.open == old.open,
        new.focus_path == old.focus_path,
        new.open_path == old.open_path,
        r.select@.len() == 0,
        r.capture,
{
}

/// The chain that follows focus along `rest` from panel `nodes`, when every entry of `rest` but
/// the last opens: all of `rest` when its last entry opens and the mode or `kept` lets it, else
/// all but the last entry.
proof fn lemma_open_chain_follows<I, X>(
    nodes: Seq<MenuNode<I, X>>,
    rest: Seq<usize>,
    mode: SubmenuOpenMode,
    kept: bool,
)
    requires
        rest.len() > 0,
        descend(nodes, rest.drop_last()) is Some,
    ensures
        open_chain(nodes, rest, mode, kept) == if descend(nodes, rest) is Some && (mode
            == SubmenuOpenMode::Hover || kept) {
            rest
        } else {
            rest.drop_last()
        },
    decreases rest.len(),
{
    if rest.len() == 1 {
        assert(rest.drop_last() =~= Seq::<usize>::empty());
        assert(rest.drop_first() =~= Seq::<usize>::empty());
        match step_into(nodes, rest[0] as int) {
            Some(children) => {
                assert(descend(children, rest.drop_first()) == Some(children));
                assert(seq![rest[0]] =~= rest);
            },
            None => {},
        }
    } else {
        assert(rest.drop_last()[0] == rest[0]);
        assert(rest.drop_last().drop_first() =~= rest.drop_first().drop_last());
        let children = step_into(nodes, rest[0] as int)->0;
        lemma_open_chain_follows(children, rest.drop_first(), mode, kept);
        assert(seq![rest[0]] + rest.drop_first() =~= rest);
        assert(seq![rest[0]] + rest.drop_first().drop_last() =~= rest.drop_last());
    }
}

/// The open path follows focus: with focus on row path `focus` whose panel is open, the open
/// path becomes `focus` itself when the focused row is a submenu that hover opens or that was
/// already open (`focus` a prefix of the old open path), and otherwise the chain of submenus
/// leading to the focused row's panel.
pub proof fn lemma_open_path_follows_focus<I, X>(
    items: Seq<MenuNode<I, X>>,
    focus: Seq<usize>,
    mode: SubmenuOpenMode,
    old_open: Seq<usize>,
)
    requires
        focus.len() > 0,
        descend(items, focus.drop_last()) is Some,
    ensures
        synced_open_path(items, focus, mode, old_open) == if node_at(items, focus) is Some
            && node_at(items, focus)->0 is Submenu && (mode == SubmenuOpenMode::Hover || is_prefix(
            focus,
            old_open,
        )) {
            focus
        } else {
            focus.drop_last()
        },
{
    lemma_open_chain_follows(items, focus, mode, is_prefix(focus, old_open));
    lemma_node_at_submenu(items, focus);
}

/// A drag that moves the held handle from stop `a` to stop `b` reports the stops it crosses,
/// one by one in the order it crosses them: `a + 1` up to `b` going right, `a - 1` down to `b`
/// going left; the handle ends on `b` and the menu stays open.
pub proof fn lemma_drag_reports_crossed_stops<P, R, I, X>(
    old: ContextMenuState<P, R>,
    new: ContextMenuState<P, R>,
    r: Reaction,
    row: Option<usize>,
    b: usize,
    nodes: Seq<MenuNode<I, X>>,
    index: int,
)
    requires
        old.slider_drag is Some,
        slider_dragged(old, new, r, PointerInput::Moved { row, stop: Some(b) }, nodes, index),
        0 <= index < nodes.len(),
        nodes[index] is Slider,
        old.slider_drag->0.stop < nodes[index]->Slider_stops@.len(),
        b < nodes[index]->Slider_stops@.len(),
    ensures
        ({
            let stops = nodes[index]->Slider_stops@;
            let a = old.slider_drag->0.stop as int;
            &&& new.slider_drag matches Some(d) && d.stop == b && d.path@ == old.slider_drag->0.path@
            &&& new.open == old.open && !r.closed && r.capture
            &&& r.select@.len() == if a <= b { b - a } else { a - b }
            &&& a <= b ==> forall|k: int| 0 <= k < b - a ==> r.select@[k] == stops[a + 1 + k].id
            &&& b < a ==> forall|k: int| 0 <= k < a - b ==> r.select@[k] == stops[a - 1 - k].id
        }),
{
}

/// A press in the track of an enabled slider resting on stop `a` grabs the handle at the stop
/// `b` it landed on and reports the stops between, in the order the handle crosses them.
pub proof fn lemma_press_reports_crossed_stops<P, R, I, X>(
    old: ContextMenuState<P, R>,
    new: ContextMenuState<P, R>,
    r: Reaction,
    nodes: Seq<MenuNode<I, X>>,
    path: Seq<usize>,
    index: int,
    b: usize,
)
    requires
        slider_pressed(old, new, r, nodes, path, index, Some(b)),
        0 <= index < nodes.len(),
        nodes[index] is Slider,
        nodes[index]->Slider_enabled,
        nodes[index]->Slider_selected < nodes[index]->Slider_stops@.len(),
        b < nodes[index]->Slider_stops@.len(),
    ensures
        ({
            let stops = nodes[index]->Slider_stops@;
            let a = nodes[index]->Slider_selected as int;
            &&& new.slider_drag matches Some(d) && d.stop == b && d.path@ == path
            &&& new.open == old.open && !r.closed && r.capture
            &&& r.select@.len() == if a <= b { b - a } else { a - b }
            &&& a <= b ==> forall|k: int| 0 <= k < b - a ==> r.select@[k] == stops[a + 1 + k].id
            &&& b < a ==> forall|k: int| 0 <= k < a - b ==> r.select@[k] == stops[a - 1 - k].id
        }),
{
}

} // verus!
