//! Which vector icon marks a submenu row.

use vstd::prelude::*;

verus! {

/// Which vector icon to draw at the end of a submenu row. The host holds the artwork for each.
#[derive(Debug, Clone, Copy, PartialEq, Eq, Structural)]
pub enum SubmenuChevronIcon {
    /// `svg/arrow-next-small-svgrepo-com.svg`
    ArrowNextSmall,
    /// `svg/arrow-next-svgrepo-com.svg`
    ArrowNext,
    /// `svg/arrow-right-333-svgrepo-com.svg`
    ArrowRight333,
    /// `svg/arrow-right-336-svgrepo-com.svg`
    ArrowRight336,
}

impl Default for SubmenuChevronIcon {
    fn default() -> (icon: Self)
        ensures
            icon == SubmenuChevronIcon::ArrowNextSmall,
    {
        SubmenuChevronIcon::ArrowNextSmall
    }
}

} // verus!
