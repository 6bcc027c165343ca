//! Hierarchical menu description.
//!
//! A [`MenuSpec`] is a list of [`MenuNode`]s; a [`MenuNode::Submenu`] holds a list of its own.
//! Two parts of a row are the host toolkit's business and are carried here untouched, as type
//! parameters: the row icon `I`, and `X`, what a fractional number row is drawn from (its value,
//! bounds and step). Everything the menu's own logic reads is plain data.

use vstd::prelude::*;

verus! {

/// The id a row reports when it is picked.
#[derive(Debug, Clone, Copy, PartialEq, Eq, Structural, Hash)]
pub struct MenuItemId(pub u64);

/// The decimal digits of `n`, most significant first.
pub open spec fn decimal_digits(n: nat) -> Seq<char>
    decreases n,
{
    if n < 10 {
        seq![digit_char(n)]
    } else {
        decimal_digits(n / 10).push(digit_char(n % 10))
    }
}

/// The character for decimal digit `d`.
pub open spec fn digit_char(d: nat) -> char {
    (48 + d) as char
}

/// Decimal rendering of an unsigned integer, as `Display` writes it.
#[verifier::external_body]
pub(crate) fn decimal(n: u64) -> (s: String)
    ensures
        s@ == decimal_digits(n as nat),
{
    n.to_string()
}

impl MenuItemId {
    /// The id as text: its number in decimal.
    pub fn display_string(&self) -> (s: String)
        ensures
            s@ == decimal_digits(self.0 as nat),
    {
        decimal(self.0)
    }

    pub fn from_u64(value: u64) -> (id: MenuItemId)
        ensures
            id.0 == value,
    {
        MenuItemId(value)
    }
}

impl From<u64> for MenuItemId {
    fn from(value: u64) -> (id: Self)
        ensures
            id == MenuItemId(value),
    {
        MenuItemId(value)
    }
}

impl vstd::std_specs::convert::FromSpecImpl<u64> for MenuItemId {
    open spec fn obeys_from_spec() -> bool {
        true
    }

    open spec fn from_spec(v: u64) -> MenuItemId {
        MenuItemId(v)
    }
}

/// One stop of a [`MenuNode::Slider`]: the id it emits when the slider comes to rest on it, and
/// the value it is labelled with.
#[derive(Debug, Clone)]
pub struct SliderStop {
    pub id: MenuItemId,
    pub label: String,
}

impl SliderStop {
    pub fn new(id: MenuItemId, label: String) -> (stop: SliderStop)
        ensures
            stop.id == id,
            stop.label == label,
    {
        SliderStop { id, label }
    }
}

/// What a number row ranges over.
///
/// A whole-number row holds its value, bounds and step exactly; a fractional row holds the
/// host's own description of them, which this crate never reads.
#[derive(Debug, Clone)]
pub enum NumberRange<X> {
    Whole { value: i64, min: i64, max: i64, step: i64 },
    Fractional(X),
}

impl<X> NumberRange<X> {
    /// Whether the field holds whole numbers, which keeps a decimal point out of a row that
    /// counts pixels.
    pub fn is_integral(&self) -> (b: bool)
        ensures
            b == (self is Whole),
    {
        match self {
            NumberRange::Whole { .. } => true,
            NumberRange::Fractional(_) => false,
        }
    }

    /// Bounds the field of a whole-number row accepts: its own bounds when the row is enabled,
    /// and the single point of its value when it is not, so a disabled field ignores every edit.
    pub fn whole_field_bounds(&self, enabled: bool) -> (r: Option<(i64, i64)>)
        ensures
            match *self {
                NumberRange::Whole { value, min, max, .. } => r == Some(
                    if enabled {
                        (min, max)
                    } else {
                        (value, value)
                    },
                ),
                NumberRange::Fractional(_) => r is None,
            },
    {
        match self {
            NumberRange::Whole { value, min, max, .. } => {
                if enabled {
                    Some((*min, *max))
                } else {
                    Some((*value, *value))
                }
            },
            NumberRange::Fractional(_) => None,
        }
    }

    /// The step of a whole-number field: the row's step, and never less than one.
    pub fn whole_field_step(&self) -> (r: Option<i64>)
        ensures
            match *self {
                NumberRange::Whole { step, .. } => r == Some(if step < 1 { 1i64 } else { step }),
                NumberRange::Fractional(_) => r is None,
            },
    {
        match self {
            NumberRange::Whole { step, .. } => {
                if *step < 1 {
                    Some(1)
                } else {
                    Some(*step)
                }
            },
            NumberRange::Fractional(_) => None,
        }
    }
}

#[derive(Debug)]
pub enum MenuNode<I, X> {
    Action {
        id: MenuItemId,
        title: String,
        enabled: bool,
        icon: Option<I>,
        /// Display-only shortcut hint (e.g. `"Ctrl+S"`). Shown right-aligned when set.
        hotkey: Option<String>,
    },
    /// A row carrying on/off state, drawn with a checkbox in the icon slot. Selecting it emits
    /// `id` like an [`MenuNode::Action`]; the app flips `on` and rebuilds the spec.
    Toggle { id: MenuItemId, title: String, on: bool, enabled: bool, hotkey: Option<String> },
    /// A row holding a slider over a handful of discrete stops. Moving the handle, by click, drag
    /// or arrow key, emits the id of every stop it crosses, once each and in order; the menu
    /// stays open so the value can be dialled in.
    Slider {
        title: String,
        stops: Vec<SliderStop>,
        /// Index into `stops` the handle rests on. Out of range leaves the handle at the near
        /// end and no stop reported as current.
        selected: usize,
        enabled: bool,
        icon: Option<I>,
    },
    /// A row holding a numeric field with a stepper. Its value is reported through the menu's
    /// number callback rather than as a selection, and the menu stays open while it is edited.
    Number {
        id: MenuItemId,
        title: String,
        range: NumberRange<X>,
        enabled: bool,
        icon: Option<I>,
    },
    Separator,
    Submenu { title: String, children: Vec<MenuNode<I, X>>, icon: Option<I> },
}

#[derive(Debug)]
pub struct MenuSpec<I, X> {
    nodes: Vec<MenuNode<I, X>>,
}

impl<I, X> MenuSpec<I, X> {
    /// The rows of the menu, in order.
    pub closed spec fn spec_nodes(&self) -> Seq<MenuNode<I, X>> {
        self.nodes@
    }

    pub fn new() -> (spec: Self)
        ensures
            spec.spec_nodes() == Seq::<MenuNode<I, X>>::empty(),
    {
        MenuSpec { nodes: Vec::new() }
    }

    pub fn action(
        self,
        id: MenuItemId,
        title: String,
        icon: Option<I>,
        hotkey: Option<String>,
    ) -> (spec: Self)
        ensures
            spec.spec_nodes() == self.spec_nodes().push(
                MenuNode::Action { id, title, enabled: true, icon, hotkey },
            ),
    {
        let mut nodes = self.nodes;
        nodes.push(MenuNode::Action { id, title, enabled: true, icon, hotkey });
        MenuSpec { nodes }
    }

    pub fn disabled(
        self,
        id: MenuItemId,
        title: String,
        icon: Option<I>,
        hotkey: Option<String>,
    ) -> (spec: Self)
        ensures
            spec.spec_nodes() == self.spec_nodes().push(
                MenuNode::Action { id, title, enabled: false, icon, hotkey },
            ),
    {
        let mut nodes = self.nodes;
        nodes.push(MenuNode::Action { id, title, enabled: false, icon, hotkey });
        MenuSpec { nodes }
    }

    pub fn toggle(self, id: MenuItemId, title: String, on: bool, hotkey: Option<String>) -> (spec:
        Self)
        ensures
            spec.spec_nodes() == self.spec_nodes().push(
                MenuNode::Toggle { id, title, on, enabled: true, hotkey },
            ),
    {
        let mut nodes = self.nodes;
        nodes.push(MenuNode::Toggle { id, title, on, enabled: true, hotkey });
        MenuSpec { nodes }
    }

    pub fn toggle_disabled(
        self,
        id: MenuItemId,
        title: String,
        on: bool,
        hotkey: Option<String>,
    ) -> (spec: Self)
        ensures
            spec.spec_nodes() == self.spec_nodes().push(
                MenuNode::Toggle { id, title, on, enabled: false, hotkey },
            ),
    {
        let mut nodes = self.nodes;
        nodes.push(MenuNode::Toggle { id, title, on, enabled: false, hotkey });
        MenuSpec { nodes }
    }

    pub fn slider(self, title: String, stops: Vec<SliderStop>, selected: usize, icon: Option<I>) -> (spec:
        Self)
        ensures
            spec.spec_nodes() == self.spec_nodes().push(
                MenuNode::Slider { title, stops, selected, enabled: true, icon },
            ),
    {
        let mut nodes = self.nodes;
        nodes.push(MenuNode::Slider { title, stops, selected, enabled: true, icon });
        MenuSpec { nodes }
    }

    pub fn slider_disabled(
        self,
        title: String,
        stops: Vec<SliderStop>,
        selected: usize,
        icon: Option<I>,
    ) -> (spec: Self)
        ensures
            spec.spec_nodes() == self.spec_nodes().push(
                MenuNode::Slider { title, stops, selected, enabled: false, icon },
            ),
    {
        let mut nodes = self.nodes;
        nodes.push(MenuNode::Slider { title, stops, selected, enabled: false, icon });
        MenuSpec { nodes }
    }

    /// A whole-number field over `bounds`, stepping by `step`.
    pub fn integer(
        self,
        id: MenuItemId,
        title: String,
        value: i64,
        bounds: core::ops::RangeInclusive<i64>,
        step: i64,
        icon: Option<I>,
    ) -> (spec: Self)
        ensures
            spec.spec_nodes() == self.spec_nodes().push(
                MenuNode::Number {
                    id,
                    title,
                    range: NumberRange::Whole { value, min: bounds@.start, max: bounds@.end, step },
                    enabled: true,
                    icon,
                },
            ),
    {
        let min = *bounds.start();
        let max = *bounds.end();
        let mut nodes = self.nodes;
        nodes.push(
            MenuNode::Number {
                id,
                title,
                range: NumberRange::Whole { value, min, max, step },
                enabled: true,
                icon,
            },
        );
        MenuSpec { nodes }
    }

    /// A fractional field, described by the host's `range`.
    pub fn number(self, id: MenuItemId, title: String, range: X, icon: Option<I>) -> (spec: Self)
        ensures
            spec.spec_nodes() == self.spec_nodes().push(
                MenuNode::Number {
                    id,
                    title,
                    range: NumberRange::Fractional(range),
                    enabled: true,
                    icon,
                },
            ),
    {
        let mut nodes = self.nodes;
        nodes.push(
            MenuNode::Number {
                id,
                title,
                range: NumberRange::Fractional(range),
                enabled: true,
                icon,
            },
        );
        MenuSpec { nodes }
    }

    pub fn separator(self) -> (spec: Self)
        ensures
            spec.spec_nodes() == self.spec_nodes().push(MenuNode::Separator),
    {
        let mut nodes = self.nodes;
        nodes.push(MenuNode::Separator);
        MenuSpec { nodes }
    }

    pub fn submenu(self, title: String, children: Vec<MenuNode<I, X>>, icon: Option<I>) -> (spec:
        Self)
        ensures
            spec.spec_nodes() == self.spec_nodes().push(
                MenuNode::Submenu { title, children, icon },
            ),
    {
        let mut nodes = self.nodes;
        nodes.push(MenuNode::Submenu { title, children, icon });
        MenuSpec { nodes }
    }

    pub fn nodes(&self) -> (nodes: &[MenuNode<I, X>])
        ensures
            nodes@ == self.spec_nodes(),
    {
        self.nodes.as_slice()
    }

    /// A menu made of `nodes`, in order.
    pub fn from_nodes(nodes: Vec<MenuNode<I, X>>) -> (spec: Self)
        ensures
            spec.spec_nodes() == nodes@,
    {
        MenuSpec { nodes }
    }
}

impl<I, X> Default for MenuSpec<I, X> {
    fn default() -> (spec: Self)
        ensures
            spec.spec_nodes() == Seq::<MenuNode<I, X>>::empty(),
    {
        MenuSpec::new()
    }
}

impl<I, X> From<Vec<MenuNode<I, X>>> for MenuSpec<I, X> {
    fn from(nodes: Vec<MenuNode<I, X>>) -> (spec: Self)
        ensures
            spec.spec_nodes() == nodes@,
    {
        MenuSpec { nodes }
    }
}

impl<I, X> vstd::std_specs::convert::FromSpecImpl<Vec<MenuNode<I, X>>> for MenuSpec<I, X> {
    open spec fn obeys_from_spec() -> bool {
        true
    }

    closed spec fn from_spec(v: Vec<MenuNode<I, X>>) -> MenuSpec<I, X> {
        MenuSpec { nodes: v }
    }
}

/// `RangeInclusive::start` returns the range's lower bound.
pub assume_specification<Idx>[ core::ops::RangeInclusive::<Idx>::start ](
    range: &core::ops::RangeInclusive<Idx>,
) -> (start: &Idx)
    ensures
        *start == range@.start,
;

/// `RangeInclusive::end` returns the range's upper bound.
pub assume_specification<Idx>[ core::ops::RangeInclusive::<Idx>::end ](
    range: &core::ops::RangeInclusive<Idx>,
) -> (end: &Idx)
    ensures
        *end == range@.end,
;

} // verus!
