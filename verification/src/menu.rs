//! The flat-titled menu description of the first widget generation: actions, separators and
//! submenus.

pub use crate::context_menu::menu::MenuItemId;
use vstd::prelude::*;

verus! {

#[derive(Debug)]
pub enum MenuNode {
    Action { id: MenuItemId, title: String, enabled: bool },
    Separator,
    Submenu { title: String, children: Vec<MenuNode> },
}

#[derive(Debug)]
pub struct MenuSpec {
    nodes: Vec<MenuNode>,
}

impl MenuSpec {
    /// The rows of the menu, in order.
    pub closed spec fn spec_nodes(&self) -> Seq<MenuNode> {
        self.nodes@
    }

    pub fn new() -> (spec: Self)
        ensures
            spec.spec_nodes() == Seq::<MenuNode>::empty(),
    {
        MenuSpec { nodes: Vec::new() }
    }

    pub fn action(self, id: MenuItemId, title: String) -> (spec: Self)
        ensures
            spec.spec_nodes() == self.spec_nodes().push(MenuNode::Action { id, title, enabled: true }),
    {
        let mut nodes = self.nodes;
        nodes.push(MenuNode::Action { id, title, enabled: true });
        MenuSpec { nodes }
    }

    pub fn disabled(self, id: MenuItemId, title: String) -> (spec: Self)
        ensures
            spec.spec_nodes() == self.spec_nodes().push(
                MenuNode::Action { id, title, enabled: false },
            ),
    {
        let mut nodes = self.nodes;
        nodes.push(MenuNode::Action { id, title, enabled: false });
        MenuSpec { nodes }
    }

    pub fn separator(self) -> (spec: Self)
        ensures
            spec.spec_nodes() == self.spec_nodes().push(MenuNode::Separator),
    {
        let mut nodes = self.nodes;
        nodes.push(MenuNode::Separator);
        MenuSpec { nodes }
    }

    pub fn submenu(self, title: String, children: Vec<MenuNode>) -> (spec: Self)
        ensures
            spec.spec_nodes() == self.spec_nodes().push(MenuNode::Submenu { title, children }),
    {
        let mut nodes = self.nodes;
        nodes.push(MenuNode::Submenu { title, children });
        MenuSpec { nodes }
    }

    pub fn nodes(&self) -> (nodes: &[MenuNode])
        ensures
            nodes@ == self.spec_nodes(),
    {
        self.nodes.as_slice()
    }

    /// A menu made of `nodes`, in order.
    pub fn from_nodes(nodes: Vec<MenuNode>) -> (spec: Self)
        ensures
            spec.spec_nodes() == nodes@,
    {
        MenuSpec { nodes }
    }
}

impl Default for MenuSpec {
    fn default() -> (spec: Self)
        ensures
            spec.spec_nodes() == Seq::<MenuNode>::empty(),
    {
        MenuSpec::new()
    }
}

} // verus!
