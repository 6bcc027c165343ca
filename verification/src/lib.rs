//! Context menus: a nested menu description, and the verified decisions a menu makes as it
//! is opened, navigated by pointer and keyboard, and closed.
//!
//! Drawing, layout and anything measured in pixels belong to the host toolkit; this crate holds
//! the menu tree, the paths into it, and the state machine that walks them.

pub mod context_menu;
pub mod menu;
pub mod submenu_chevron;
pub mod widget;

pub use context_menu::{
    ContextMenuOpen, ContextMenuState, MenuItemId, MenuNode, MenuSpec, NumberRange, SliderDrag,
    SliderStop, SubmenuOpenMode,
};
pub use submenu_chevron::SubmenuChevronIcon;
