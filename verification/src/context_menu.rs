//! The context menu: its tree, its state, and the decisions its overlays take for each event.

pub mod laws;
pub mod menu;
pub mod nav;
pub mod open;
pub mod state;

pub use menu::{MenuItemId, MenuNode, MenuSpec, NumberRange, SliderStop};
pub use open::ContextMenuOpen;
pub use state::{ContextMenuState, SliderDrag, SubmenuOpenMode};
