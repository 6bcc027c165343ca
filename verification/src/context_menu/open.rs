//! How the context menu opens.

use super::menu::{MenuItemId, MenuNode};
use super::nav::{open_menu_at, quiet, Reaction};
use super::state::{first_focusable_spec, ContextMenuState};
use vstd::prelude::*;

verus! {

/// How the context menu widget opens. Set each view (e.g. from app state). `P` is the host's
/// point type.
///
/// For [`Self::Programmatic`], set `open: true` for one update (or until the menu opens), then
/// clear it, the same pulse pattern as other one-shot UI requests.
#[derive(Debug, Clone, Copy)]
pub enum ContextMenuOpen<P> {
    /// Open when the user right-clicks over the widget (default).
    RightClick,
    /// Open only when `open` is true this frame. Right-click does not open the menu.
    ///
    /// Use `anchor: Some(p)` for a fixed position, or `None` to use the cursor when it is over
    /// the widget, otherwise the center of the widget bounds.
    Programmatic { open: bool, anchor: Option<P> },
}

impl<P> Default for ContextMenuOpen<P> {
    fn default() -> (mode: Self)
        ensures
            mode is RightClick,
    {
        ContextMenuOpen::RightClick
    }
}

/// Where the menu opens this update, if it opens: at a right-click over the widget in
/// right-click mode; at the requested anchor, else the cursor when it is over the widget, else
/// the widget's center, when a programmatic open is requested.
///
/// `right_press` is the cursor position of a right-button press over the widget this update,
/// `cursor_over` the cursor position when it is over the widget, `center` the center of the
/// widget bounds.
pub open spec fn open_anchor_spec<P>(
    mode: ContextMenuOpen<P>,
    right_press: Option<P>,
    cursor_over: Option<P>,
    center: P,
) -> Option<P> {
    match mode {
        ContextMenuOpen::RightClick => right_press,
        ContextMenuOpen::Programmatic { open, anchor } => if open {
            Some(
                match anchor {
                    Some(p) => p,
                    None => match cursor_over {
                        Some(c) => c,
                        None => center,
                    },
                },
            )
        } else {
            None
        },
    }
}

pub fn open_anchor<P: Copy>(
    mode: &ContextMenuOpen<P>,
    right_press: Option<P>,
    cursor_over: Option<P>,
    center: P,
) -> (r: Option<P>)
    ensures
        r == open_anchor_spec(*mode, right_press, cursor_over, center),
{
    match mode {
        ContextMenuOpen::RightClick => right_press,
        ContextMenuOpen::Programmatic { open, anchor } => {
            if !*open {
                return None;
            }
            match anchor {
                Some(p) => Some(*p),
                None => match cursor_over {
                    Some(c) => Some(c),
                    None => Some(center),
                },
            }
        },
    }
}

/// The widget's own part of an update: a closed menu opens where [`open_anchor`] says, with
/// focus on its first focusable row; an open menu is left to its overlays.
pub fn update_opening<P: Copy, R, I, X>(
    state: &mut ContextMenuState<P, R>,
    nodes: &[MenuNode<I, X>],
    mode: &ContextMenuOpen<P>,
    right_press: Option<P>,
    cursor_over: Option<P>,
    center: P,
) -> (r: Reaction)
    ensures
        match (if old(state).open {
            None
        } else {
            open_anchor_spec(*mode, right_press, cursor_over, center)
        }) {
            Some(anchor) => {
                &&& final(state).open
                &&& final(state).anchor == anchor
                &&& final(state).focus_path@ == match first_focusable_spec(nodes@, None) {
                    Some(i) => seq![i],
                    None => Seq::<usize>::empty(),
                }
                &&& final(state).open_path@.len() == 0
                &&& final(state).submenu_anchors@.len() == 0
                &&& final(state).slider_drag is None
                &&& r@ == (true, Seq::<MenuItemId>::empty(), false, true, true)
            },
            None => *final(state) == *old(state) && r@ == quiet(),
        },
{
    if state.open {
        return Reaction::none();
    }
    match open_anchor(mode, right_press, cursor_over, center) {
        Some(anchor) => open_menu_at(state, nodes, anchor),
        None => Reaction::none(),
    }
}

/// Where a closed menu opens: in right-click mode at the right press, and never without one; on
/// a programmatic request at the requested anchor, else at the cursor over the widget, else at
/// the widget's center; never when no request is made.
pub proof fn lemma_open_anchor_cases<P>(
    mode: ContextMenuOpen<P>,
    right_press: Option<P>,
    cursor_over: Option<P>,
    center: P,
)
    ensures
        mode is RightClick ==> open_anchor_spec(mode, right_press, cursor_over, center)
            == right_press,
        mode is Programmatic && !mode->open ==> open_anchor_spec(
            mode,
            right_press,
            cursor_over,
            center,
        ) is None,
        mode is Programmatic && mode->open && mode->anchor is Some ==> open_anchor_spec(
            mode,
            right_press,
            cursor_over,
            center,
        ) == mode->anchor,
        mode is Programmatic && mode->open && mode->anchor is None && cursor_over is Some
            ==> open_anchor_spec(mode, right_press, cursor_over, center) == cursor_over,
        mode is Programmatic && mode->open && mode->anchor is None && cursor_over is None
            ==> open_anchor_spec(mode, right_press, cursor_over, center) == Some(center),
{
}

} // verus!
