//! Menu tree navigation and open/focus paths.
//!
//! A path is a list of row indices: its first entry is a row of the root panel, each later one a
//! row of the submenu the entry before it opens.

use super::menu::{MenuNode, MenuSpec};
use vstd::prelude::*;

verus! {

/// How nested submenus open.
#[derive(Debug, Clone, Copy, PartialEq, Eq, Structural)]
pub enum SubmenuOpenMode {
    /// Open as soon as the pointer enters the submenu row.
    Hover,
    /// Open when the submenu row is clicked.
    Click,
}

impl Default for SubmenuOpenMode {
    fn default() -> (mode: Self)
        ensures
            mode == SubmenuOpenMode::Hover,
    {
        SubmenuOpenMode::Hover
    }
}

/// A slider handle held by the pointer: the path of its row, and the stop it is on.
#[derive(Debug, Clone)]
pub struct SliderDrag {
    pub path: Vec<usize>,
    pub stop: usize,
}

/// Persistent state of a context menu.
///
/// `P` is the host's point type (where the menu is anchored) and `R` its rectangle type (where
/// each flyout is anchored); the menu's logic only stores and clears them.
#[derive(Debug)]
pub struct ContextMenuState<P, R> {
    pub open: bool,
    pub anchor: P,
    /// Keyboard / logical focus: indices from root through each nested panel.
    pub focus_path: Vec<usize>,
    /// Open submenu chain: `open_path[0]` is a root row index, etc.
    pub open_path: Vec<usize>,
    /// Anchor for the flyout at depth `d`.
    pub submenu_anchors: Vec<R>,
    /// The slider handle the pointer is dragging, if any.
    pub slider_drag: Option<SliderDrag>,
}

// ---------------------------------------------------------------------------------------------
// The model: what a path reaches in a menu tree.
// ---------------------------------------------------------------------------------------------

/// A row that focus can land on: anything but a separator or a disabled action.
pub open spec fn is_focusable<I, X>(node: MenuNode<I, X>) -> bool {
    match node {
        MenuNode::Separator => false,
        MenuNode::Action { enabled, .. } => enabled,
        _ => true,
    }
}

pub open spec fn is_submenu<I, X>(node: MenuNode<I, X>) -> bool {
    node is Submenu
}

/// The rows of the submenu at row `idx` of `nodes`, if that row is a submenu.
pub open spec fn step_into<I, X>(nodes: Seq<MenuNode<I, X>>, idx: int) -> Option<
    Seq<MenuNode<I, X>>,
> {
    if 0 <= idx < nodes.len() {
        match nodes[idx] {
            MenuNode::Submenu { children, .. } => Some(children@),
            _ => None,
        }
    } else {
        None
    }
}

/// The rows reached by opening each submenu along `path` in turn; `None` when some entry of
/// `path` is not a submenu row of the panel it indexes.
pub open spec fn descend<I, X>(nodes: Seq<MenuNode<I, X>>, path: Seq<usize>) -> Option<
    Seq<MenuNode<I, X>>,
>
    decreases path.len(),
{
    if path.len() == 0 {
        Some(nodes)
    } else {
        match step_into(nodes, path[0] as int) {
            Some(children) => descend(children, path.drop_first()),
            None => None,
        }
    }
}

/// The row `path` points at: its last entry, in the panel the entries before it open.
pub open spec fn node_at<I, X>(nodes: Seq<MenuNode<I, X>>, path: Seq<usize>) -> Option<
    MenuNode<I, X>,
>
    decreases path.len(),
{
    if path.len() == 0 {
        None
    } else if path.len() == 1 {
        if path[0] < nodes.len() {
            Some(nodes[path[0] as int])
        } else {
            None
        }
    } else {
        match step_into(nodes, path[0] as int) {
            Some(children) => node_at(children, path.drop_first()),
            None => None,
        }
    }
}

/// The rows of the submenu `path` points at; `None` for the empty path.
pub open spec fn children_at<I, X>(nodes: Seq<MenuNode<I, X>>, path: Seq<usize>) -> Option<
    Seq<MenuNode<I, X>>,
> {
    if path.len() == 0 {
        None
    } else {
        descend(nodes, path)
    }
}

/// The panel the last entry of `focus` is a row of: the root for a path of at most one entry.
pub open spec fn focused_panel<I, X>(root: Seq<MenuNode<I, X>>, focus: Seq<usize>) -> Seq<
    MenuNode<I, X>,
> {
    if focus.len() <= 1 {
        root
    } else {
        match children_at(root, focus.drop_last()) {
            Some(children) => children,
            None => root,
        }
    }
}

/// `a` is a prefix of `b`.
pub open spec fn is_prefix(a: Seq<usize>, b: Seq<usize>) -> bool {
    a.len() <= b.len() && b.subrange(0, a.len() as int) == a
}

/// The open chain that follows focus along `rest`, starting in panel `nodes`: every entry but
/// the last opens while it is a submenu; the last opens only in hover mode, or in click mode
/// when it was already open (`kept`).
pub open spec fn open_chain<I, X>(
    nodes: Seq<MenuNode<I, X>>,
    rest: Seq<usize>,
    mode: SubmenuOpenMode,
    kept: bool,
) -> Seq<usize>
    decreases rest.len(),
{
    if rest.len() == 0 {
        Seq::empty()
    } else if rest.len() == 1 {
        if step_into(nodes, rest[0] as int) is Some && (mode == SubmenuOpenMode::Hover || kept) {
            seq![rest[0]]
        } else {
            Seq::empty()
        }
    } else {
        match step_into(nodes, rest[0] as int) {
            Some(children) => seq![rest[0]] + open_chain(children, rest.drop_first(), mode, kept),
            None => Seq::empty(),
        }
    }
}

/// The open path that matches focus `focus`, given the open path `old_open` before it moved.
pub open spec fn synced_open_path<I, X>(
    nodes: Seq<MenuNode<I, X>>,
    focus: Seq<usize>,
    mode: SubmenuOpenMode,
    old_open: Seq<usize>,
) -> Seq<usize> {
    open_chain(nodes, focus, mode, is_prefix(focus, old_open))
}

/// The first row of `nodes` that focus can land on, passing over `skip`.
pub open spec fn first_focusable_spec<I, X>(nodes: Seq<MenuNode<I, X>>, skip: Option<usize>) -> Option<
    usize,
> {
    if exists|i: int|
        0 <= i < nodes.len() && skip != Some(i as usize) && is_focusable(#[trigger] nodes[i]) {
        Some(
            (choose|i: int|
                0 <= i < nodes.len() && skip != Some(i as usize) && is_focusable(#[trigger] nodes[i])
                    && forall|j: int|
                    0 <= j < i ==> skip == Some(j as usize) || !is_focusable(#[trigger] nodes[j])) as usize,
        )
    } else {
        None
    }
}

/// Walking from `cur` in steps of `dir` around a panel of `nodes.len()` rows, the first of the
/// next `remaining` rows that focus can land on.
pub open spec fn cyclic_scan<I, X>(
    nodes: Seq<MenuNode<I, X>>,
    cur: int,
    dir: int,
    remaining: nat,
) -> Option<int>
    decreases remaining,
{
    if remaining == 0 {
        None
    } else {
        let next = (cur + dir) % (nodes.len() as int);
        if is_focusable(nodes[next]) {
            Some(next)
        } else {
            cyclic_scan(nodes, next, dir, (remaining - 1) as nat)
        }
    }
}

/// Every step [`cyclic_scan`] takes before it stops stays within `isize`.
pub open spec fn cyclic_scan_fits<I, X>(
    nodes: Seq<MenuNode<I, X>>,
    cur: int,
    dir: int,
    remaining: nat,
) -> bool
    decreases remaining,
{
    remaining == 0 || (isize::MIN <= cur + dir <= isize::MAX && {
        let next = (cur + dir) % (nodes.len() as int);
        is_focusable(nodes[next]) || cyclic_scan_fits(nodes, next, dir, (remaining - 1) as nat)
    })
}

// ---------------------------------------------------------------------------------------------
// Lemmas on paths.
// ---------------------------------------------------------------------------------------------

pub proof fn lemma_descend_push<I, X>(nodes: Seq<MenuNode<I, X>>, path: Seq<usize>, idx: usize)
    ensures
        descend(nodes, path.push(idx)) == match descend(nodes, path) {
            Some(cur) => step_into(cur, idx as int),
            None => None,
        },
    decreases path.len(),
{
    let pushed = path.push(idx);
    assert(pushed[0] == if path.len() == 0 { idx } else { path[0] });
    if path.len() == 0 {
        assert(pushed.drop_first() =~= Seq::<usize>::empty());
        match step_into(nodes, idx as int) {
            Some(children) => {
                assert(descend(children, pushed.drop_first()) == Some(children));
            },
            None => {},
        }
    } else {
        assert(pushed.drop_first() =~= path.drop_first().push(idx));
        match step_into(nodes, path[0] as int) {
            Some(children) => lemma_descend_push(children, path.drop_first(), idx),
            None => {},
        }
    }
}

pub proof fn lemma_node_at_push<I, X>(nodes: Seq<MenuNode<I, X>>, path: Seq<usize>, idx: usize)
    ensures
        node_at(nodes, path.push(idx)) == match descend(nodes, path) {
            Some(cur) => if idx < cur.len() {
                Some(cur[idx as int])
            } else {
                None
            },
            None => None,
        },
    decreases path.len(),
{
    let pushed = path.push(idx);
    assert(pushed[0] == if path.len() == 0 { idx } else { path[0] });
    if path.len() == 0 {
    } else {
        assert(pushed.drop_first() =~= path.drop_first().push(idx));
        match step_into(nodes, path[0] as int) {
            Some(children) => lemma_node_at_push(children, path.drop_first(), idx),
            None => {},
        }
    }
}

/// A prefix of a path that opens reaches submenus too.
pub proof fn lemma_descend_prefix<I, X>(nodes: Seq<MenuNode<I, X>>, path: Seq<usize>, k: int)
    requires
        0 <= k <= path.len(),
        descend(nodes, path) is Some,
    ensures
        descend(nodes, path.subrange(0, k)) is Some,
    decreases path.len(),
{
    if k == 0 {
    } else {
        let children = step_into(nodes, path[0] as int)->0;
        assert(path.subrange(0, k).drop_first() =~= path.drop_first().subrange(0, k - 1));
        lemma_descend_prefix(children, path.drop_first(), k - 1);
    }
}

/// A submenu row is a row whose path opens.
pub proof fn lemma_node_at_submenu<I, X>(nodes: Seq<MenuNode<I, X>>, path: Seq<usize>)
    requires
        path.len() > 0,
    ensures
        (node_at(nodes, path) is Some && is_submenu(node_at(nodes, path)->0)) <==> descend(
            nodes,
            path,
        ) is Some,
    decreases path.len(),
{
    if path.len() == 1 {
        assert(path.drop_first() =~= Seq::<usize>::empty());
        match step_into(nodes, path[0] as int) {
            Some(children) => {
                assert(descend(children, path.drop_first()) == Some(children));
            },
            None => {},
        }
    } else {
        match step_into(nodes, path[0] as int) {
            Some(children) => lemma_node_at_submenu(children, path.drop_first()),
            None => {},
        }
    }
}

/// The chain that follows focus always opens: each of its entries is a submenu row.
pub proof fn lemma_open_chain_opens<I, X>(
    nodes: Seq<MenuNode<I, X>>,
    rest: Seq<usize>,
    mode: SubmenuOpenMode,
    kept: bool,
)
    ensures
        descend(nodes, open_chain(nodes, rest, mode, kept)) is Some,
        is_prefix(open_chain(nodes, rest, mode, kept), rest),
    decreases rest.len(),
{
    let chain = open_chain(nodes, rest, mode, kept);
    if rest.len() == 0 {
        assert(rest.subrange(0, 0) =~= chain);
    } else if rest.len() == 1 {
        if chain.len() == 1 {
            assert(chain.drop_first() =~= Seq::<usize>::empty());
            assert(rest.subrange(0, 1) =~= chain);
            let children = step_into(nodes, rest[0] as int)->0;
            assert(descend(children, chain.drop_first()) == Some(children));
        } else {
            assert(rest.subrange(0, 0) =~= chain);
        }
    } else {
        match step_into(nodes, rest[0] as int) {
            Some(children) => {
                lemma_open_chain_opens(children, rest.drop_first(), mode, kept);
                let tail = open_chain(children, rest.drop_first(), mode, kept);
                assert(chain.drop_first() =~= tail);
                assert(chain[0] == rest[0]);
                assert(chain.subrange(0, chain.len() as int) =~= chain);
                assert(rest.subrange(0, chain.len() as int) =~= seq![rest[0]] + rest.drop_first().subrange(0, tail.len() as int));
            },
            None => {
                assert(rest.subrange(0, 0) =~= chain);
            },
        }
    }
}

// ---------------------------------------------------------------------------------------------
// Executable navigation.
// ---------------------------------------------------------------------------------------------

pub(crate) fn node_is_focusable<I, X>(node: &MenuNode<I, X>) -> (b: bool)
    ensures
        b == is_focusable(*node),
{
    match node {
        MenuNode::Separator => false,
        MenuNode::Action { enabled, .. } => *enabled,
        _ => true,
    }
}

/// The first row of `nodes` that focus can land on, passing over `skip`.
pub fn first_focusable<I, X>(nodes: &[MenuNode<I, X>], skip: Option<usize>) -> (r: Option<usize>)
    ensures
        r == first_focusable_spec(nodes@, skip),
        match r {
            Some(i) => i < nodes@.len() && skip != Some(i) && is_focusable(nodes@[i as int]) && forall|
                j: int,
            |
                0 <= j < i ==> skip == Some(j as usize) || !is_focusable(#[trigger] nodes@[j]),
            None => forall|j: int|
                0 <= j < nodes@.len() ==> skip == Some(j as usize) || !is_focusable(
                    #[trigger] nodes@[j],
                ),
        },
{
    let mut i: usize = 0;
    while i < nodes.len()
        invariant
            i <= nodes@.len(),
            forall|j: int|
                0 <= j < i ==> skip == Some(j as usize) || !is_focusable(#[trigger] nodes@[j]),
        decreases nodes.len() - i,
    {
        let skipped = match skip {
            Some(s) => s == i,
            None => false,
        };
        if !skipped && node_is_focusable(&nodes[i]) {
            proof {
                let w = choose|k: int|
                    0 <= k < nodes@.len() && skip != Some(k as usize) && is_focusable(
                        #[trigger] nodes@[k],
                    ) && forall|j: int|
                        0 <= j < k ==> skip == Some(j as usize) || !is_focusable(
                            #[trigger] nodes@[j],
                        );
                assert(0 <= i < nodes@.len() && skip != Some(i) && is_focusable(nodes@[i as int]));
                if w < i {
                    assert(skip == Some(w as usize) || !is_focusable(nodes@[w]));
                } else if w > i {
                    assert(skip == Some(i) || !is_focusable(nodes@[i as int]));
                }
            }
            return Some(i);
        }
        i += 1;
    }
    None
}

/// The next row focus lands on walking from `from` in steps of `dir`, wrapping around the
/// panel; `None` when no row of it can take focus.
pub fn next_focusable<I, X>(nodes: &[MenuNode<I, X>], from: usize, dir: isize) -> (r: Option<
    usize,
>)
    requires
        nodes@.len() <= isize::MAX,
        nodes@.len() == 0 || cyclic_scan_fits(
            nodes@,
            from as isize as int,
            dir as int,
            nodes@.len() as nat,
        ),
    ensures
        nodes@.len() == 0 ==> r is None,
        nodes@.len() > 0 ==> match cyclic_scan(
            nodes@,
            from as isize as int,
            dir as int,
            nodes@.len() as nat,
        ) {
            Some(i) => r == Some(i as usize),
            None => r is None,
        },
{
    if nodes.len() == 0 {
        return None;
    }
    let len = nodes.len() as isize;
    let mut i = from as isize;
    let mut k: usize = 0;
    while k < nodes.len()
        invariant
            k <= nodes@.len(),
            len as int == nodes@.len(),
            nodes@.len() > 0,
            k > 0 ==> 0 <= i < len,
            cyclic_scan(nodes@, from as isize as int, dir as int, nodes@.len() as nat)
                == cyclic_scan(nodes@, i as int, dir as int, (nodes@.len() - k) as nat),
            cyclic_scan_fits(nodes@, i as int, dir as int, (nodes@.len() - k) as nat),
        decreases nodes.len() - k,
    {
        let sum = i + dir;
        let next = match sum.checked_rem_euclid(len) {
            Some(v) => v,
            None => {
                return None;
            },
        };
        let ui = next as usize;
        if node_is_focusable(&nodes[ui]) {
            return Some(ui);
        }
        i = next;
        k += 1;
    }
    None
}

/// The rows of the submenu `path` points at; `None` for the empty path, or when some entry of it
/// is not a submenu row.
pub fn submenu_children<'a, I, X>(nodes: &'a [MenuNode<I, X>], path: &[usize]) -> (r: Option<
    &'a [MenuNode<I, X>],
>)
    ensures
        match r {
            Some(children) => children_at(nodes@, path@) == Some(children@),
            None => children_at(nodes@, path@) is None,
        },
{
    let mut current = nodes;
    let mut d: usize = 0;
    proof {
        assert(path@.subrange(0, path@.len() as int) =~= path@);
    }
    while d < path.len()
        invariant
            d <= path@.len(),
            d == 0 || d < path@.len(),
            descend(nodes@, path@) == descend(current@, path@.subrange(d as int, path@.len() as int)),
        decreases path.len() - d,
    {
        let idx = path[d];
        proof {
            let rest = path@.subrange(d as int, path@.len() as int);
            assert(rest.drop_first() =~= path@.subrange(d + 1, path@.len() as int));
            assert(rest[0] == idx);
        }
        if idx >= current.len() {
            return None;
        }
        match &current[idx] {
            MenuNode::Submenu { children, .. } => {
                if d + 1 == path.len() {
                    proof {
                        let rest = path@.subrange(d as int, path@.len() as int);
                        assert(rest.drop_first() =~= Seq::<usize>::empty());
                        assert(step_into(current@, idx as int) == Some(children@));
                        assert(descend(children@, rest.drop_first()) == Some(children@));
                    }
                    return Some(children.as_slice());
                }
                current = children.as_slice();
            },
            _ => {
                return None;
            },
        }
        d += 1;
    }
    None
}

/// The row `path` points at.
pub fn node_at_path<'a, I, X>(nodes: &'a [MenuNode<I, X>], path: &[usize]) -> (r: Option<
    &'a MenuNode<I, X>,
>)
    ensures
        match r {
            Some(node) => node_at(nodes@, path@) == Some(*node),
            None => node_at(nodes@, path@) is None,
        },
{
    let mut current = nodes;
    let mut d: usize = 0;
    proof {
        assert(path@.subrange(0, path@.len() as int) =~= path@);
    }
    while d < path.len()
        invariant
            d <= path@.len(),
            d == 0 || d < path@.len(),
            d < path@.len() ==> node_at(nodes@, path@) == node_at(
                current@,
                path@.subrange(d as int, path@.len() as int),
            ),
        decreases path.len() - d,
    {
        let idx = path[d];
        proof {
            let rest = path@.subrange(d as int, path@.len() as int);
            assert(rest.drop_first() =~= path@.subrange(d + 1, path@.len() as int));
            assert(rest[0] == idx);
        }
        if idx >= current.len() {
            return None;
        }
        let node = &current[idx];
        if d + 1 == path.len() {
            return Some(node);
        }
        match node {
            MenuNode::Submenu { children, .. } => {
                current = children.as_slice();
            },
            _ => {
                return None;
            },
        }
        d += 1;
    }
    None
}

/// The panel the last entry of `focus_path` is a row of.
pub fn current_nodes<'a, I, X>(root: &'a [MenuNode<I, X>], focus_path: &[usize]) -> (r: &'a [MenuNode<
    I,
    X,
>])
    ensures
        r@ == focused_panel(root@, focus_path@),
{
    if focus_path.len() <= 1 {
        return root;
    }
    let parent = &focus_path[0..focus_path.len() - 1];
    proof {
        assert(parent@ =~= focus_path@.drop_last());
    }
    match submenu_children(root, parent) {
        Some(children) => children,
        None => root,
    }
}

/// Whether `prefix` is a prefix of `path`.
pub fn starts_with(path: &[usize], prefix: &[usize]) -> (b: bool)
    ensures
        b == is_prefix(prefix@, path@),
{
    if prefix.len() > path.len() {
        return false;
    }
    let mut i: usize = 0;
    while i < prefix.len()
        invariant
            prefix@.len() <= path@.len(),
            i <= prefix@.len(),
            forall|j: int| 0 <= j < i ==> path@[j] == prefix@[j],
        decreases prefix.len() - i,
    {
        if path[i] != prefix[i] {
            proof {
                assert(path@.subrange(0, prefix@.len() as int)[i as int] != prefix@[i as int]);
            }
            return false;
        }
        i += 1;
    }
    proof {
        assert(path@.subrange(0, prefix@.len() as int) =~= prefix@);
    }
    true
}

/// A copy of `path`.
pub fn copy_path(path: &[usize]) -> (r: Vec<usize>)
    ensures
        r@ == path@,
{
    let mut out: Vec<usize> = Vec::new();
    let mut i: usize = 0;
    while i < path.len()
        invariant
            i <= path@.len(),
            out@ == path@.subrange(0, i as int),
        decreases path.len() - i,
    {
        out.push(path[i]);
        proof {
            assert(out@ =~= path@.subrange(0, i + 1));
        }
        i += 1;
    }
    proof {
        assert(out@ =~= path@);
    }
    out
}

impl<P, R> ContextMenuState<P, R> {
    /// A closed menu anchored at `anchor`.
    pub fn new(anchor: P) -> (state: Self)
        ensures
            !state.open,
            state.anchor == anchor,
            state.focus_path@.len() == 0,
            state.open_path@.len() == 0,
            state.submenu_anchors@.len() == 0,
            state.slider_drag is None,
    {
        ContextMenuState {
            open: false,
            anchor,
            focus_path: Vec::new(),
            open_path: Vec::new(),
            submenu_anchors: Vec::new(),
            slider_drag: None,
        }
    }

    /// Forgets focus, open submenus, flyout anchors and any slider drag.
    pub fn reset_interaction(&mut self)
        ensures
            final(self).open == old(self).open,
            final(self).anchor == old(self).anchor,
            final(self).focus_path@.len() == 0,
            final(self).open_path@.len() == 0,
            final(self).submenu_anchors@.len() == 0,
            final(self).slider_drag is None,
    {
        self.focus_path.clear();
        self.open_path.clear();
        self.submenu_anchors.clear();
        self.slider_drag = None;
    }

    /// Closes the menu and forgets its interaction state.
    pub fn close(&mut self)
        ensures
            !final(self).open,
            final(self).anchor == old(self).anchor,
            final(self).focus_path@.len() == 0,
            final(self).open_path@.len() == 0,
            final(self).submenu_anchors@.len() == 0,
            final(self).slider_drag is None,
    {
        self.open = false;
        self.reset_interaction();
    }

    /// Puts focus on the first focusable root row when nothing has focus yet.
    pub fn ensure_focus<I, X>(&mut self, nodes: &[MenuNode<I, X>])
        ensures
            final(self).open == old(self).open,
            final(self).anchor == old(self).anchor,
            final(self).open_path == old(self).open_path,
            final(self).submenu_anchors == old(self).submenu_anchors,
            final(self).slider_drag == old(self).slider_drag,
            final(self).focus_path@ == if old(self).focus_path@.len() == 0 {
                match first_focusable_spec(nodes@, None) {
                    Some(i) => seq![i],
                    None => Seq::<usize>::empty(),
                }
            } else {
                old(self).focus_path@
            },
    {
        if self.focus_path.len() == 0 {
            if let Some(i) = first_focusable(nodes, None) {
                self.focus_path.push(i);
                proof {
                    assert(self.focus_path@ =~= seq![i]);
                }
            }
        }
    }
}

/// Sets the open path to the chain that follows focus `focus`: every submenu on the way to the
/// focused row, and the focused row itself when it is a submenu that hover opens, or that a
/// click had already opened.
pub fn sync_open_path_for_focus<P, R, I, X>(
    state: &mut ContextMenuState<P, R>,
    items: &MenuSpec<I, X>,
    mode: SubmenuOpenMode,
    focus: &[usize],
)
    ensures
        final(state).open_path@ == synced_open_path(
            items.spec_nodes(),
            focus@,
            mode,
            old(state).open_path@,
        ),
        final(state).open == old(state).open,
        final(state).anchor == old(state).anchor,
        final(state).focus_path == old(state).focus_path,
        final(state).submenu_anchors == old(state).submenu_anchors,
        final(state).slider_drag == old(state).slider_drag,
{
    if focus.len() == 0 {
        state.open_path.clear();
        return;
    }
    let kept = starts_with(&state.open_path, focus);
    let root = items.nodes();
    let mut open: Vec<usize> = Vec::new();
    let mut cur = root;
    let mut depth: usize = 0;
    let ghost target = synced_open_path(items.spec_nodes(), focus@, mode, old(state).open_path@);
    proof {
        assert(focus@.subrange(0, focus@.len() as int) =~= focus@);
        assert(open@ + target =~= target);
    }
    while depth < focus.len()
        invariant
            depth <= focus@.len(),
            focus@.len() > 0,
            kept == is_prefix(focus@, old(state).open_path@),
            target == open_chain(root@, focus@, mode, kept),
            root@ == items.spec_nodes(),
            depth < focus@.len() ==> open@.len() == depth,
            depth < focus@.len() ==> target == open@ + open_chain(
                cur@,
                focus@.subrange(depth as int, focus@.len() as int),
                mode,
                kept,
            ),
            depth == focus@.len() ==> target == open@,
        ensures
            target == open@,
        decreases focus.len() - depth,
    {
        let idx = focus[depth];
        let ghost rest = focus@.subrange(depth as int, focus@.len() as int);
        proof {
            assert(rest.drop_first() =~= focus@.subrange(depth + 1, focus@.len() as int));
            assert(rest[0] == idx);
        }
        if idx >= cur.len() {
            proof {
                assert(target =~= open@);
            }
            break;
        }
        let node = &cur[idx];
        let is_last = depth + 1 == focus.len();
        if !is_last {
            match node {
                MenuNode::Submenu { children, .. } => {
                    open.push(idx);
                    proof {
                        assert(open_chain(cur@, rest, mode, kept) == seq![idx] + open_chain(
                            children@,
                            rest.drop_first(),
                            mode,
                            kept,
                        ));
                        assert(target =~= open@ + open_chain(
                            children@,
                            focus@.subrange(depth + 1, focus@.len() as int),
                            mode,
                            kept,
                        ));
                    }
                    cur = children.as_slice();
                },
                _ => {
                    proof {
                        assert(target =~= open@);
                    }
                    break;
                },
            }
        } else {
            let opens = match node {
                MenuNode::Submenu { .. } => match mode {
                    SubmenuOpenMode::Hover => true,
                    SubmenuOpenMode::Click => kept,
                },
                _ => false,
            };
            if opens {
                open.push(idx);
            }
            proof {
                assert(target =~= open@);
            }
        }
        depth += 1;
    }
    state.open_path = open;
}

} // verus!
