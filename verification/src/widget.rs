//! The runtime model of the first widget generation: the panels an open path shows, their rows,
//! keyboard focus within them, and the hover delay that opens a submenu under the pointer.
//!
//! Submenus are addressed here by their rank among the submenu rows of a panel (the `k`-th
//! submenu), not by their row index.

use crate::context_menu::menu::{decimal, decimal_digits, MenuItemId};
use crate::context_menu::nav::NavKey;
use crate::context_menu::state::{copy_path, is_prefix, starts_with};
use crate::menu::MenuNode;
use vstd::prelude::*;

verus! {

#[derive(Debug, Clone, Copy, PartialEq, Eq, Structural)]
pub enum SubmenuOpenMode {
    Hover,
    Click,
    HoverAndClick,
}

/// What a row of a panel is, as far as focus and activation go.
#[derive(Debug, Clone, Copy, PartialEq, Eq, Structural)]
pub enum RowKind {
    Action(MenuItemId),
    Disabled,
    Separator,
    /// The `child_index`-th submenu row of its panel.
    Submenu { child_index: usize },
}

#[derive(Debug, Clone, Copy, PartialEq, Eq, Structural)]
pub struct RowModel {
    pub kind: RowKind,
}

/// One open panel: the submenu path that opened it, and its rows.
#[derive(Debug, Clone)]
pub struct PanelModel {
    pub path: Vec<usize>,
    pub rows: Vec<RowModel>,
}

/// What a row of an overlay panel reports when it is used.
#[derive(Debug, Clone)]
pub enum OverlayEvent {
    Close,
    Inert,
    Select(MenuItemId),
    OpenPath(Vec<usize>),
}

/// A row as an overlay panel draws it.
#[derive(Debug, Clone)]
pub enum MenuItem<M> {
    Action { label: String, message: M },
    Disabled { label: String },
    Separator,
}

// ---------------------------------------------------------------------------------------------
// Model.
// ---------------------------------------------------------------------------------------------

pub open spec fn kind_focusable(kind: RowKind) -> bool {
    !(kind is Separator) && !(kind is Disabled)
}

pub open spec fn kinds(rows: Seq<RowModel>) -> Seq<RowKind> {
    rows.map_values(|row: RowModel| row.kind)
}

/// How many submenu rows `nodes` holds.
pub open spec fn submenu_count(nodes: Seq<MenuNode>) -> nat
    decreases nodes.len(),
{
    if nodes.len() == 0 {
        0
    } else {
        submenu_count(nodes.drop_last()) + if nodes.last() is Submenu {
            1nat
        } else {
            0nat
        }
    }
}

/// The row kind of `node`, given that `before` submenu rows come before it.
pub open spec fn kind_of(node: MenuNode, before: nat) -> RowKind {
    match node {
        MenuNode::Action { id, enabled, .. } => if enabled {
            RowKind::Action(id)
        } else {
            RowKind::Disabled
        },
        MenuNode::Separator => RowKind::Separator,
        MenuNode::Submenu { .. } => RowKind::Submenu { child_index: before as usize },
    }
}

/// The row kinds of a panel showing `nodes`.
pub open spec fn row_kinds(nodes: Seq<MenuNode>) -> Seq<RowKind> {
    Seq::new(nodes.len(), |i: int| kind_of(nodes[i], submenu_count(nodes.subrange(0, i))))
}

/// The children of the `k`-th submenu row of `nodes`.
pub open spec fn nth_submenu(nodes: Seq<MenuNode>, k: int) -> Option<Seq<MenuNode>>
    decreases nodes.len(),
{
    if nodes.len() == 0 {
        None
    } else {
        match nodes[0] {
            MenuNode::Submenu { children, .. } => if k == 0 {
                Some(children@)
            } else {
                nth_submenu(nodes.drop_first(), k - 1)
            },
            _ => nth_submenu(nodes.drop_first(), k),
        }
    }
}

/// The rows reached by opening, along `path`, the submenu of each rank in turn; `None` when a
/// panel has no submenu of that rank.
pub open spec fn walk(nodes: Seq<MenuNode>, path: Seq<usize>) -> Option<Seq<MenuNode>>
    decreases path.len(),
{
    if path.len() == 0 {
        Some(nodes)
    } else {
        match nth_submenu(nodes, path[0] as int) {
            Some(children) => walk(children, path.drop_first()),
            None => None,
        }
    }
}

/// How many leading entries of `path` open a submenu.
pub open spec fn reach(nodes: Seq<MenuNode>, path: Seq<usize>) -> nat
    decreases path.len(),
{
    if path.len() == 0 {
        0
    } else {
        match nth_submenu(nodes, path[0] as int) {
            Some(children) => 1 + reach(children, path.drop_first()),
            None => 0,
        }
    }
}

/// The rows of the deepest panel `path` opens: it follows `path` until an entry names no
/// submenu, and stops there.
pub open spec fn resolve(nodes: Seq<MenuNode>, path: Seq<usize>) -> Seq<MenuNode>
    decreases path.len(),
{
    if path.len() == 0 {
        nodes
    } else {
        match nth_submenu(nodes, path[0] as int) {
            Some(children) => resolve(children, path.drop_first()),
            None => nodes,
        }
    }
}

pub proof fn lemma_submenu_count_bound(nodes: Seq<MenuNode>)
    ensures
        submenu_count(nodes) <= nodes.len(),
    decreases nodes.len(),
{
    if nodes.len() > 0 {
        lemma_submenu_count_bound(nodes.drop_last());
    }
}

pub proof fn lemma_walk_push(nodes: Seq<MenuNode>, path: Seq<usize>, idx: usize)
    ensures
        walk(nodes, path.push(idx)) == match walk(nodes, path) {
            Some(cur) => nth_submenu(cur, idx as int),
            None => None,
        },
    decreases path.len(),
{
    let pushed = path.push(idx);
    assert(pushed[0] == if path.len() == 0 {
        idx
    } else {
        path[0]
    });
    if path.len() == 0 {
        assert(pushed.drop_first() =~= Seq::<usize>::empty());
        match nth_submenu(nodes, idx as int) {
            Some(children) => {
                assert(walk(children, pushed.drop_first()) == Some(children));
            },
            None => {},
        }
    } else {
        assert(pushed.drop_first() =~= path.drop_first().push(idx));
        match nth_submenu(nodes, path[0] as int) {
            Some(children) => lemma_walk_push(children, path.drop_first(), idx),
            None => {},
        }
    }
}

/// A prefix of `path` opens exactly when it is no longer than the reach of `path`, and the deepest
/// panel `path` opens is the one its reach opens.
pub proof fn lemma_reach(nodes: Seq<MenuNode>, path: Seq<usize>, k: int)
    requires
        0 <= k <= path.len(),
    ensures
        (walk(nodes, path.subrange(0, k)) is Some) == (k <= reach(nodes, path)),
        reach(nodes, path) <= path.len(),
        walk(nodes, path.subrange(0, reach(nodes, path) as int)) == Some(resolve(nodes, path)),
    decreases path.len(),
{
    if path.len() == 0 {
        assert(path.subrange(0, 0) =~= path);
    } else {
        match nth_submenu(nodes, path[0] as int) {
            Some(children) => {
                let rest = path.drop_first();
                if k > 0 {
                    lemma_reach(children, rest, k - 1);
                    assert(path.subrange(0, k).drop_first() =~= rest.subrange(0, k - 1));
                    assert(path.subrange(0, k)[0] == path[0]);
                } else {
                    lemma_reach(children, rest, 0);
                    assert(path.subrange(0, 0) =~= Seq::<usize>::empty());
                }
                let r = reach(nodes, path) as int;
                assert(path.subrange(0, r).drop_first() =~= rest.subrange(0, r - 1));
                assert(path.subrange(0, r)[0] == path[0]);
            },
            None => {
                if k > 0 {
                    assert(path.subrange(0, k)[0] == path[0]);
                }
                assert(path.subrange(0, 0) =~= Seq::<usize>::empty());
            },
        }
    }
}

/// The children of the `idx`-th submenu row of `nodes`.
pub fn find_submenu(nodes: &[MenuNode], idx: usize) -> (r: Option<&[MenuNode]>)
    ensures
        match r {
            Some(children) => nth_submenu(nodes@, idx as int) == Some(children@),
            None => nth_submenu(nodes@, idx as int) is None,
        },
{
    let mut submenu_count: usize = 0;
    let mut i: usize = 0;
    proof {
        assert(nodes@.subrange(0, nodes@.len() as int) =~= nodes@);
    }
    while i < nodes.len()
        invariant
            i <= nodes@.len(),
            submenu_count <= idx,
            submenu_count <= i,
            nth_submenu(nodes@, idx as int) == nth_submenu(
                nodes@.subrange(i as int, nodes@.len() as int),
                idx - submenu_count,
            ),
        decreases nodes.len() - i,
    {
        proof {
            let rest = nodes@.subrange(i as int, nodes@.len() as int);
            assert(rest.drop_first() =~= nodes@.subrange(i + 1, nodes@.len() as int));
            assert(rest[0] == nodes@[i as int]);
        }
        if let MenuNode::Submenu { children, .. } = &nodes[i] {
            if submenu_count == idx {
                return Some(children.as_slice());
            }
            submenu_count += 1;
        }
        i += 1;
    }
    None
}

/// The row kinds of a panel showing `nodes`: enabled actions carry their id, and each submenu
/// row its rank among the submenu rows.
pub fn rows_for_nodes(nodes: &[MenuNode]) -> (rows: Vec<RowModel>)
    ensures
        kinds(rows@) == row_kinds(nodes@),
{
    let mut rows: Vec<RowModel> = Vec::new();
    let mut submenu_index: usize = 0;
    let mut i: usize = 0;
    while i < nodes.len()
        invariant
            i <= nodes@.len(),
            rows@.len() == i,
            submenu_index == submenu_count(nodes@.subrange(0, i as int)),
            forall|j: int|
                0 <= j < i ==> (#[trigger] rows@[j]).kind == kind_of(
                    nodes@[j],
                    submenu_count(nodes@.subrange(0, j)),
                ),
        decreases nodes.len() - i,
    {
        proof {
            lemma_submenu_count_bound(nodes@.subrange(0, i as int));
            assert(nodes@.subrange(0, i + 1).drop_last() =~= nodes@.subrange(0, i as int));
        }
        let kind = match &nodes[i] {
            MenuNode::Action { id, enabled, .. } => if *enabled {
                RowKind::Action(*id)
            } else {
                RowKind::Disabled
            },
            MenuNode::Separator => RowKind::Separator,
            MenuNode::Submenu { .. } => RowKind::Submenu { child_index: submenu_index },
        };
        rows.push(RowModel { kind });
        if let MenuNode::Submenu { .. } = &nodes[i] {
            submenu_index += 1;
        }
        i += 1;
    }
    proof {
        assert(kinds(rows@) =~= row_kinds(nodes@));
    }
    rows
}

/// `panel` is the panel opened by `path`: that path, and the rows it reaches.
pub open spec fn shows_panel(nodes: Seq<MenuNode>, path: Seq<usize>, panel: PanelModel) -> bool {
    &&& panel.path@ == path
    &&& match walk(nodes, path) {
        Some(reached) => kinds(panel.rows@) == row_kinds(reached),
        None => false,
    }
}

/// The panels `open_path` shows: the root, then one per entry of it that opens a submenu,
/// stopping at the first that does not.
pub fn build_panels(nodes: &[MenuNode], open_path: &[usize]) -> (panels: Vec<PanelModel>)
    ensures
        panels@.len() == reach(nodes@, open_path@) + 1,
        forall|i: int|
            0 <= i < panels@.len() ==> shows_panel(
                nodes@,
                open_path@.subrange(0, i),
                #[trigger] panels@[i],
            ),
{
    let mut out: Vec<PanelModel> = Vec::new();
    let mut current_nodes = nodes;
    let mut current_path: Vec<usize> = Vec::new();
    proof {
        assert(open_path@.subrange(0, 0) =~= Seq::<usize>::empty());
        assert(current_path@ =~= open_path@.subrange(0, 0));
    }
    out.push(PanelModel { path: copy_path(&current_path), rows: rows_for_nodes(current_nodes) });
    let mut d: usize = 0;
    while d < open_path.len()
        invariant
            d <= open_path@.len(),
            out@.len() == d + 1,
            current_path@ == open_path@.subrange(0, d as int),
            walk(nodes@, open_path@.subrange(0, d as int)) == Some(current_nodes@),
            forall|i: int|
                0 <= i < out@.len() ==> shows_panel(
                    nodes@,
                    open_path@.subrange(0, i),
                    #[trigger] out@[i],
                ),
        ensures
            d <= open_path@.len(),
            out@.len() == d + 1,
            d < open_path@.len() ==> walk(nodes@, open_path@.subrange(0, d + 1)) is None,
            forall|i: int|
                0 <= i < out@.len() ==> shows_panel(
                    nodes@,
                    open_path@.subrange(0, i),
                    #[trigger] out@[i],
                ),
        decreases open_path.len() - d,
    {
        let idx = open_path[d];
        proof {
            assert(open_path@.subrange(0, d + 1) =~= open_path@.subrange(0, d as int).push(idx));
            lemma_walk_push(nodes@, open_path@.subrange(0, d as int), idx);
        }
        match find_submenu(current_nodes, idx) {
            Some(next_nodes) => {
                let ghost before = out@;
                current_path.push(idx);
                current_nodes = next_nodes;
                let panel = PanelModel {
                    path: copy_path(&current_path),
                    rows: rows_for_nodes(current_nodes),
                };
                out.push(panel);
                proof {
                    assert(current_path@ =~= open_path@.subrange(0, d + 1));
                    assert(out@ == before.push(panel));
                    assert(out@[d + 1] == panel);
                    assert forall|i: int| 0 <= i < out@.len() implies shows_panel(
                        nodes@,
                        open_path@.subrange(0, i),
                        #[trigger] out@[i],
                    ) by {
                        if i < d + 1 {
                            assert(out@[i] == before[i]);
                        }
                    }
                }
                d += 1;
            },
            None => {
                break;
            },
        }
    }
    proof {
        if d < open_path@.len() {
            lemma_reach(nodes@, open_path@, d as int);
            lemma_reach(nodes@, open_path@, d + 1);
        } else {
            assert(open_path@.subrange(0, d as int) =~= open_path@);
            lemma_reach(nodes@, open_path@, d as int);
        }
    }
    out
}

/// The rows of the deepest panel `path` opens.
pub fn resolve_nodes_at_path<'a>(nodes: &'a [MenuNode], path: &[usize]) -> (r: &'a [MenuNode])
    ensures
        r@ == resolve(nodes@, path@),
{
    let mut current = nodes;
    let mut d: usize = 0;
    proof {
        assert(path@.subrange(0, path@.len() as int) =~= path@);
    }
    while d < path.len()
        invariant
            d <= path@.len(),
            resolve(nodes@, path@) == resolve(current@, path@.subrange(d as int, path@.len() as int)),
        decreases path.len() - d,
    {
        proof {
            let rest = path@.subrange(d as int, path@.len() as int);
            assert(rest.drop_first() =~= path@.subrange(d + 1, path@.len() as int));
            assert(rest[0] == path@[d as int]);
        }
        match find_submenu(current, path[d]) {
            Some(next) => {
                current = next;
            },
            None => {
                return current;
            },
        }
        d += 1;
    }
    proof {
        assert(path@.subrange(d as int, path@.len() as int) =~= Seq::<usize>::empty());
    }
    current
}

/// The title a row of kind `kind` is labelled with in `nodes`, where `seen` submenu rows have
/// been passed over: for an action row, the title of the enabled action carrying the row's own
/// id; for a disabled row, which carries no id, the first disabled action's title; for a submenu
/// row, the title of the submenu of its rank.
pub open spec fn label_scan(nodes: Seq<MenuNode>, kind: RowKind, seen: int) -> Option<Seq<char>>
    decreases nodes.len(),
{
    if nodes.len() == 0 {
        None
    } else {
        let rest = label_scan(nodes.drop_first(), kind, seen);
        match nodes[0] {
            MenuNode::Action { id, title, enabled } => if enabled && kind == RowKind::Action(id) {
                Some(title@)
            } else if !enabled && kind is Disabled {
                Some(title@)
            } else {
                rest
            },
            MenuNode::Submenu { title, .. } => match kind {
                RowKind::Submenu { child_index } => if seen == child_index {
                    Some(title@)
                } else {
                    label_scan(nodes.drop_first(), kind, seen + 1)
                },
                _ => rest,
            },
            MenuNode::Separator => rest,
        }
    }
}

/// The label a row of the panel at `panel_path` is drawn with.
pub fn label_for_row(nodes: &[MenuNode], panel_path: &[usize], row: &RowModel) -> (r: Option<
    String,
>)
    ensures
        match r {
            Some(s) => label_scan(resolve(nodes@, panel_path@), row.kind, 0) == Some(s@),
            None => label_scan(resolve(nodes@, panel_path@), row.kind, 0) is None,
        },
{
    let current = resolve_nodes_at_path(nodes, panel_path);
    let mut submenu_seen: usize = 0;
    let mut i: usize = 0;
    proof {
        assert(current@.subrange(0, current@.len() as int) =~= current@);
    }
    while i < current.len()
        invariant
            i <= current@.len(),
            current@ == resolve(nodes@, panel_path@),
            submenu_seen <= i,
            label_scan(current@, row.kind, 0) == label_scan(
                current@.subrange(i as int, current@.len() as int),
                row.kind,
                submenu_seen as int,
            ),
        decreases current.len() - i,
    {
        proof {
            let rest = current@.subrange(i as int, current@.len() as int);
            assert(rest.drop_first() =~= current@.subrange(i + 1, current@.len() as int));
            assert(rest[0] == current@[i as int]);
        }
        match &current[i] {
            MenuNode::Action { id, title, enabled } => {
                let matches = match row.kind {
                    RowKind::Action(row_id) => *enabled && row_id.0 == id.0,
                    RowKind::Disabled => !*enabled,
                    _ => false,
                };
                if matches {
                    let label = title.clone();
                    proof {
                        assert(label@ == title@);
                        let rest = current@.subrange(i as int, current@.len() as int);
                        assert(label_scan(rest, row.kind, submenu_seen as int) == Some(title@));
                        assert(label_scan(current@, row.kind, 0) == Some(label@));
                        assert(label_scan(resolve(nodes@, panel_path@), row.kind, 0) == Some(label@));
                    }
                    return Some(label);
                }
            },
            MenuNode::Submenu { title, .. } => {
                if let RowKind::Submenu { child_index } = row.kind {
                    if submenu_seen == child_index {
                        let label = title.clone();
                        proof {
                            assert(label@ == title@);
                            let rest = current@.subrange(i as int, current@.len() as int);
                            assert(label_scan(rest, row.kind, submenu_seen as int) == Some(title@));
                        }
                        return Some(label);
                    }
                    submenu_seen += 1;
                }
            },
            MenuNode::Separator => {},
        }
        i += 1;
    }
    proof {
        assert(current@.subrange(i as int, current@.len() as int) =~= Seq::<MenuNode>::empty());
    }
    None
}

/// How an overlay row stands in for a panel row of kind `kind` while the panel is measured: an
/// action by its id, a submenu by its rank, a disabled row by the word `disabled`.
pub open spec fn stands_for(item: MenuItem<OverlayEvent>, kind: RowKind) -> bool {
    match kind {
        RowKind::Action(id) => match item {
            MenuItem::Action { label, message } => label@ == decimal_digits(id.0 as nat) && match message {
                OverlayEvent::Select(x) => x == id,
                _ => false,
            },
            _ => false,
        },
        RowKind::Submenu { child_index } => match item {
            MenuItem::Action { label, message } => label@ == "submenu-"@ + decimal_digits(
                child_index as nat,
            ) && message is Inert,
            _ => false,
        },
        RowKind::Disabled => match item {
            MenuItem::Disabled { label } => label@ == "disabled"@,
            _ => false,
        },
        RowKind::Separator => item is Separator,
    }
}

/// Stand-in overlay rows for `panel`, one per row, used to measure it.
pub fn panel_rows_to_dummy_items(panel: &PanelModel) -> (items: Vec<MenuItem<OverlayEvent>>)
    ensures
        items@.len() == panel.rows@.len(),
        forall|i: int| 0 <= i < items@.len() ==> stands_for(#[trigger] items@[i], panel.rows@[i].kind),
{
    let mut items: Vec<MenuItem<OverlayEvent>> = Vec::new();
    let mut i: usize = 0;
    while i < panel.rows.len()
        invariant
            i <= panel.rows@.len(),
            items@.len() == i,
            forall|j: int| 0 <= j < i ==> stands_for(#[trigger] items@[j], panel.rows@[j].kind),
        decreases panel.rows.len() - i,
    {
        let item = match panel.rows[i].kind {
            RowKind::Action(id) => MenuItem::Action {
                label: id.display_string(),
                message: OverlayEvent::Select(id),
            },
            RowKind::Submenu { child_index } => {
                let mut label = String::from_str("submenu-");
                let digits = decimal(child_index as u64);
                label.append(digits.as_str());
                MenuItem::Action { label, message: OverlayEvent::Inert }
            },
            RowKind::Disabled => MenuItem::Disabled { label: String::from_str("disabled") },
            RowKind::Separator => MenuItem::Separator,
        };
        items.push(item);
        i += 1;
    }
    items
}


// ---------------------------------------------------------------------------------------------
// Keyboard focus within a panel.
// ---------------------------------------------------------------------------------------------

/// Row `idx` exists and focus can land on it.
pub open spec fn row_focusable(ks: Seq<RowKind>, idx: int) -> bool {
    0 <= idx < ks.len() && kind_focusable(ks[idx])
}

/// The first row of `ks`, from row `start` on, that focus can land on.
pub open spec fn first_focusable_from(ks: Seq<RowKind>, start: int) -> Option<int>
    decreases ks.len() - start,
{
    if start < 0 || start >= ks.len() {
        None
    } else if kind_focusable(ks[start]) {
        Some(start)
    } else {
        first_focusable_from(ks, start + 1)
    }
}

/// The first row of `ks` focus can land on.
pub open spec fn first_focusable_kind(ks: Seq<RowKind>) -> Option<int> {
    first_focusable_from(ks, 0)
}

pub proof fn lemma_first_focusable_from(ks: Seq<RowKind>, start: int)
    requires
        0 <= start,
    ensures
        match first_focusable_from(ks, start) {
            Some(i) => start <= i < ks.len() && kind_focusable(ks[i]) && forall|j: int|
                start <= j < i ==> !kind_focusable(#[trigger] ks[j]),
            None => forall|j: int| start <= j < ks.len() ==> !kind_focusable(#[trigger] ks[j]),
        },
    decreases ks.len() - start,
{
    if start < ks.len() && !kind_focusable(ks[start]) {
        lemma_first_focusable_from(ks, start + 1);
    }
}

/// The focus a panel with rows `ks` settles on from `v`: `v` itself when focus can land there,
/// else the first row it can land on, else `0`.
pub open spec fn settled_focus(ks: Seq<RowKind>, v: int) -> int {
    if row_focusable(ks, v) {
        v
    } else {
        match first_focusable_kind(ks) {
            Some(f) => f,
            None => 0,
        }
    }
}

/// Walking from `cur` in steps of `dir` around a panel with rows `ks`, the first of the next
/// `remaining` rows focus can land on.
pub open spec fn kind_scan(ks: Seq<RowKind>, cur: int, dir: int, remaining: nat) -> Option<int>
    decreases remaining,
{
    if remaining == 0 {
        None
    } else {
        let next = (cur + dir) % (ks.len() as int);
        if kind_focusable(ks[next]) {
            Some(next)
        } else {
            kind_scan(ks, next, dir, (remaining - 1) as nat)
        }
    }
}

/// Every step [`kind_scan`] takes before it stops stays within `i32`.
pub open spec fn kind_scan_fits(ks: Seq<RowKind>, cur: int, dir: int, remaining: nat) -> bool
    decreases remaining,
{
    remaining == 0 || (i32::MIN <= cur + dir <= i32::MAX && {
        let next = (cur + dir) % (ks.len() as int);
        kind_focusable(ks[next]) || kind_scan_fits(ks, next, dir, (remaining - 1) as nat)
    })
}

/// Where focus at `focus` moves in a panel with rows `ks` for a step of `dir`: the next row it
/// can land on, wrapping around; it stays put when there is none.
pub open spec fn moved_focus(ks: Seq<RowKind>, focus: usize, dir: int) -> usize {
    if ks.len() == 0 {
        focus
    } else {
        match kind_scan(ks, focus as i32 as int, dir, ks.len() as nat) {
            Some(i) => i as usize,
            None => focus,
        }
    }
}

pub proof fn lemma_unit_kind_scan_fits(ks: Seq<RowKind>, cur: int, dir: int, remaining: nat)
    requires
        0 < ks.len() <= i32::MAX,
        dir == 1 || dir == -1,
        i32::MIN <= cur + dir <= i32::MAX,
    ensures
        kind_scan_fits(ks, cur, dir, remaining),
    decreases remaining,
{
    if remaining > 0 {
        let next = (cur + dir) % (ks.len() as int);
        lemma_unit_kind_scan_fits(ks, next, dir, (remaining - 1) as nat);
    }
}

fn kind_is_focusable(kind: RowKind) -> (b: bool)
    ensures
        b == kind_focusable(kind),
{
    match kind {
        RowKind::Separator | RowKind::Disabled => false,
        _ => true,
    }
}

/// Whether focus can land on row `idx` of `panel`.
pub fn is_focusable(panel: &PanelModel, idx: usize) -> (b: bool)
    ensures
        b == row_focusable(kinds(panel.rows@), idx as int),
{
    if idx < panel.rows.len() {
        kind_is_focusable(panel.rows[idx].kind)
    } else {
        false
    }
}

/// The first row of `panel` focus can land on.
pub fn first_focusable(panel: &PanelModel) -> (r: Option<usize>)
    ensures
        match r {
            Some(i) => first_focusable_kind(kinds(panel.rows@)) == Some(i as int),
            None => first_focusable_kind(kinds(panel.rows@)) is None,
        },
{
    let ghost ks = kinds(panel.rows@);
    let mut i: usize = 0;
    while i < panel.rows.len()
        invariant
            i <= panel.rows@.len(),
            ks == kinds(panel.rows@),
            ks.len() == panel.rows@.len(),
            first_focusable_kind(ks) == first_focusable_from(ks, i as int),
        decreases panel.rows.len() - i,
    {
        if kind_is_focusable(panel.rows[i].kind) {
            return Some(i);
        }
        i += 1;
    }
    None
}

/// Moves `focus` to the next row of `panel` focus can land on, stepping by `dir` and wrapping
/// around; leaves it where it is when no row can take focus.
pub fn move_focus(panel: &PanelModel, focus: &mut usize, dir: i32)
    requires
        panel.rows@.len() <= i32::MAX,
        panel.rows@.len() == 0 || kind_scan_fits(
            kinds(panel.rows@),
            *old(focus) as i32 as int,
            dir as int,
            panel.rows@.len() as nat,
        ),
    ensures
        *final(focus) == moved_focus(kinds(panel.rows@), *old(focus), dir as int),
{
    if panel.rows.len() == 0 {
        return;
    }
    let ghost ks = kinds(panel.rows@);
    let len = panel.rows.len() as i32;
    let mut idx = *focus as i32;
    let mut k: usize = 0;
    while k < panel.rows.len()
        invariant
            k <= panel.rows@.len(),
            len as int == panel.rows@.len(),
            panel.rows@.len() > 0,
            ks == kinds(panel.rows@),
            ks.len() == panel.rows@.len(),
            *focus == *old(focus),
            kind_scan(ks, *old(focus) as i32 as int, dir as int, ks.len() as nat) == kind_scan(
                ks,
                idx as int,
                dir as int,
                (ks.len() - k) as nat,
            ),
            kind_scan_fits(ks, idx as int, dir as int, (ks.len() - k) as nat),
        decreases panel.rows.len() - k,
    {
        let sum = idx + dir;
        let next = match sum.checked_rem_euclid(len) {
            Some(v) => v,
            None => {
                return;
            },
        };
        if kind_is_focusable(panel.rows[next as usize].kind) {
            *focus = next as usize;
            return;
        }
        idx = next;
        k += 1;
    }
}

/// Keeps one focus index per panel, each on a row focus can land on: entries are added at `0`
/// or dropped to match `panels`, and an entry on a row focus cannot land on moves to the first
/// row of its panel that it can, or to `0`.
pub fn ensure_focus_len(panels: &[PanelModel], focused_indices: &mut Vec<usize>)
    ensures
        final(focused_indices)@.len() == panels@.len(),
        forall|i: int|
            0 <= i < panels@.len() ==> #[trigger] final(focused_indices)@[i] as int == settled_focus(
                kinds(panels@[i].rows@),
                if i < old(focused_indices)@.len() {
                    old(focused_indices)@[i] as int
                } else {
                    0
                },
            ),
{
    if focused_indices.len() > panels.len() {
        focused_indices.truncate(panels.len());
    }
    while focused_indices.len() < panels.len()
        invariant
            focused_indices@.len() <= panels@.len(),
            focused_indices@.len() >= old(focused_indices)@.len() || focused_indices@.len()
                == panels@.len(),
            forall|i: int|
                0 <= i < focused_indices@.len() ==> #[trigger] focused_indices@[i] == if i < old(
                    focused_indices,
                )@.len() {
                    old(focused_indices)@[i]
                } else {
                    0
                },
        decreases panels.len() - focused_indices.len(),
    {
        focused_indices.push(0);
    }
    let ghost padded = focused_indices@;
    let mut i: usize = 0;
    while i < panels.len()
        invariant
            i <= panels@.len(),
            focused_indices@.len() == panels@.len(),
            padded.len() == panels@.len(),
            forall|j: int|
                0 <= j < padded.len() ==> #[trigger] padded[j] == if j < old(focused_indices)@.len() {
                    old(focused_indices)@[j]
                } else {
                    0
                },
            forall|j: int|
                i <= j < panels@.len() ==> #[trigger] focused_indices@[j] == padded[j],
            forall|j: int|
                0 <= j < i ==> #[trigger] focused_indices@[j] as int == settled_focus(
                    kinds(panels@[j].rows@),
                    padded[j] as int,
                ),
        decreases panels.len() - i,
    {
        let current = focused_indices[i];
        if !is_focusable(&panels[i], current) {
            let settled = match first_focusable(&panels[i]) {
                Some(f) => f,
                None => 0,
            };
            focused_indices.set(i, settled);
        }
        i += 1;
    }
}

// ---------------------------------------------------------------------------------------------
// Hover delay.
// ---------------------------------------------------------------------------------------------

#[verifier::external_type_specification]
#[verifier::external_body]
pub struct ExInstant(std::time::Instant);

/// `Instant::saturating_duration_since`: the time elapsed from `earlier` to `later`, zero when
/// `earlier` is the later one. The duration rests on the clock the two instants were read from;
/// nothing is stated of it.
#[verifier::external_body]
pub(crate) fn elapsed_since(later: std::time::Instant, earlier: std::time::Instant) -> core::time::Duration {
    later.saturating_duration_since(earlier)
}

/// `Duration::as_millis`: the whole milliseconds in `d`. A `Duration` is opaque here, so nothing
/// is stated of the count.
#[verifier::external_body]
pub(crate) fn whole_millis(d: core::time::Duration) -> u128 {
    d.as_millis()
}

/// Whether a hover that has lasted `elapsed_ms` (`None` when no hover is timed) has lasted the
/// delay.
pub fn hover_delay_elapsed(elapsed_ms: Option<u128>, delay_ms: u16) -> (b: bool)
    ensures
        b == match elapsed_ms {
            Some(ms) => ms >= delay_ms,
            None => false,
        },
{
    match elapsed_ms {
        Some(ms) => ms >= delay_ms as u128,
        None => false,
    }
}

/// `answer` says whether a hover that started at `started` has lasted `delay_ms` milliseconds at
/// `now`, as one reading of the clock measures it: for some time `d` that measuring the elapsed
/// time from `started` to `now` gives, and the whole milliseconds `ms` of it, `answer` is whether
/// `ms` reaches the delay.
pub closed spec fn hover_measured(
    started: std::time::Instant,
    now: std::time::Instant,
    delay_ms: u16,
    answer: bool,
) -> bool {
    exists|d: core::time::Duration, ms: u128|
        call_ensures(elapsed_since, (now, started), d) && call_ensures(whole_millis, (d,), ms)
            && answer == (ms >= delay_ms)
}

/// Whether a hover that started at `started_at` has lasted `delay_ms` milliseconds at `now`:
/// the whole milliseconds elapsed from the start to `now` reach the delay. No hover started, no
/// submenu opens.
pub fn should_open_hover(
    started_at: Option<std::time::Instant>,
    now: std::time::Instant,
    delay_ms: u16,
) -> (b: bool)
    ensures
        started_at is None ==> !b,
        started_at matches Some(s) ==> hover_measured(s, now, delay_ms, b),
{
    let elapsed = match started_at {
        Some(started) => {
            let d = elapsed_since(now, started);
            let ms = whole_millis(d);
            proof {
                assert(call_ensures(elapsed_since, (now, started), d));
                assert(call_ensures(whole_millis, (d,), ms));
            }
            Some(ms)
        },
        None => None,
    };
    hover_delay_elapsed(elapsed, delay_ms)
}

/// The delay a hover waits before it opens its submenu: the requested delay, and never less than
/// one millisecond.
pub fn clamped_hover_delay(delay_ms: u16) -> (r: u16)
    ensures
        r == if delay_ms < 1 { 1 } else { delay_ms },
{
    if delay_ms < 1 {
        1
    } else {
        delay_ms
    }
}

/// Whether `a` and `b` are the same path.
pub fn same_path(a: &[usize], b: &[usize]) -> (r: bool)
    ensures
        r == (a@ == b@),
{
    let r = a.len() == b.len() && starts_with(a, b);
    proof {
        if a@.len() == b@.len() && is_prefix(b@, a@) {
            assert(a@.subrange(0, b@.len() as int) =~= a@);
        }
        if a@ == b@ {
            assert(a@.subrange(0, b@.len() as int) =~= b@);
        }
    }
    r
}

/// The hover-open step once the delay question is answered: the hovered submenu opens when the
/// hover has lasted the delay (`delay_passed`). Returns whether a hovered submenu is still
/// waiting to open.
pub fn promote_hover(open_path: &mut Vec<usize>, hover_path: &[usize], delay_passed: bool) -> (pending:
    bool)
    ensures
        final(open_path)@ == if hover_path@.len() > 0 && old(open_path)@ != hover_path@
            && delay_passed {
            hover_path@
        } else {
            old(open_path)@
        },
        pending == (hover_path@.len() > 0 && final(open_path)@ != hover_path@),
{
    if hover_path.len() > 0 && !same_path(open_path, hover_path) && delay_passed {
        *open_path = copy_path(hover_path);
    }
    hover_path.len() > 0 && !same_path(open_path, hover_path)
}

/// Pointer-driven submenu hover open. `moved_to` is, when this event moved the pointer, the
/// submenu path the pointer is now over (empty when none). A new hover target restarts the
/// hover clock; a hover that has lasted `delay_ms` opens its submenu. Click mode does none of
/// this. Returns whether a hovered submenu is still waiting to open.
pub fn poll_hover(
    moved_to: Option<Vec<usize>>,
    now: std::time::Instant,
    open_path: &mut Vec<usize>,
    hover_path: &mut Vec<usize>,
    hover_started_at: &mut Option<std::time::Instant>,
    mode: SubmenuOpenMode,
    delay_ms: u16,
) -> (pending: bool)
    ensures
        mode == SubmenuOpenMode::Click ==> {
            &&& !pending
            &&& final(open_path)@ == old(open_path)@
            &&& final(hover_path)@ == old(hover_path)@
            &&& *final(hover_started_at) == *old(hover_started_at)
        },
        mode != SubmenuOpenMode::Click ==> {
            let retarget = moved_to matches Some(h) && h@ != old(hover_path)@;
            &&& final(hover_path)@ == if retarget {
                moved_to->0@
            } else {
                old(hover_path)@
            }
            &&& *final(hover_started_at) == if retarget {
                Some(now)
            } else {
                *old(hover_started_at)
            }
            &&& exists|passed: bool|
                call_ensures(should_open_hover, (*final(hover_started_at), now, delay_ms), passed)
                    && final(open_path)@ == if final(hover_path)@.len() > 0 && old(open_path)@
                    != final(hover_path)@ && passed {
                    final(hover_path)@
                } else {
                    old(open_path)@
                }
            &&& pending == (final(hover_path)@.len() > 0 && final(open_path)@ != final(hover_path)@)
        },
{
    if mode == SubmenuOpenMode::Click {
        return false;
    }
    if let Some(hovered) = moved_to {
        if !same_path(&hovered, hover_path) {
            *hover_path = hovered;
            *hover_started_at = Some(now);
        }
    }
    let passed = should_open_hover(*hover_started_at, now, delay_ms);
    promote_hover(open_path, hover_path, passed)
}


// ---------------------------------------------------------------------------------------------
// The menu session: what the widget keeps between events, and what it does with them.
// ---------------------------------------------------------------------------------------------

/// What the widget keeps while its menu may be open. `P` is the host's point type: where the
/// open menu is anchored.
#[derive(Debug)]
pub struct MenuSession<P> {
    /// Where the menu was opened, while it is open.
    pub open: Option<P>,
    /// `(panel_count, open_path)` the overlay stack was last built for; `None` when the menu is
    /// closed or the stack has to be rebuilt.
    pub last_overlay_structure: Option<(usize, Vec<usize>)>,
    pub open_path: Vec<usize>,
    pub hover_path: Vec<usize>,
    pub hover_started_at: Option<std::time::Instant>,
    pub focused_indices: Vec<usize>,
}

/// What the host does in answer to an event, in this order: publish the open message, hand
/// `select` to the selection callback, publish the close message, lay the overlay out again,
/// ask for a redraw, and capture the event.
#[derive(Debug, Clone, Copy, PartialEq, Eq, Structural)]
pub struct Outcome {
    pub opened: bool,
    pub select: Option<MenuItemId>,
    pub closed: bool,
    pub relayout: bool,
    pub redraw: bool,
    pub capture: bool,
}

pub open spec fn outcome(select: Option<MenuItemId>, closed: bool, relayout: bool, capture: bool) -> Outcome {
    Outcome { opened: false, select, closed, relayout, redraw: false, capture }
}

pub open spec fn no_outcome() -> Outcome {
    outcome(None, false, false, false)
}

impl Outcome {
    pub fn none() -> (out: Outcome)
        ensures
            out == no_outcome(),
    {
        Outcome { opened: false, select: None, closed: false, relayout: false, redraw: false, capture: false }
    }

    fn of(select: Option<MenuItemId>, closed: bool, relayout: bool, capture: bool) -> (out: Outcome)
        ensures
            out == outcome(select, closed, relayout, capture),
    {
        Outcome { opened: false, select, closed, relayout, redraw: false, capture }
    }
}

/// `new` is the closed session: nothing open, hovered or focused.
pub open spec fn session_closed<P>(new: MenuSession<P>) -> bool {
    &&& new.open is None
    &&& new.last_overlay_structure is None
    &&& new.open_path@.len() == 0
    &&& new.hover_path@.len() == 0
    &&& new.hover_started_at is None
    &&& new.focused_indices@.len() == 0
}

/// `new` is `old` with open path `open` and focus indices `focused`, nothing else changed.
pub open spec fn session_moved<P>(
    old: MenuSession<P>,
    new: MenuSession<P>,
    open: Seq<usize>,
    focused: Seq<usize>,
) -> bool {
    &&& new.open == old.open
    &&& new.last_overlay_structure == old.last_overlay_structure
    &&& new.open_path@ == open
    &&& new.hover_path == old.hover_path
    &&& new.hover_started_at == old.hover_started_at
    &&& new.focused_indices@ == focused
}

/// The row kinds of panel `i` of those `open` shows.
pub open spec fn panel_kinds(nodes: Seq<MenuNode>, open: Seq<usize>, i: int) -> Seq<RowKind> {
    match walk(nodes, open.subrange(0, i)) {
        Some(reached) => row_kinds(reached),
        None => Seq::empty(),
    }
}

/// The focus indices after [`ensure_focus_len`] has matched `focused` to the panels `open` shows.
pub open spec fn settled_all(nodes: Seq<MenuNode>, open: Seq<usize>, focused: Seq<usize>) -> Seq<
    usize,
> {
    Seq::new(
        reach(nodes, open) + 1,
        |i: int|
            settled_focus(
                panel_kinds(nodes, open, i),
                if i < focused.len() {
                    focused[i] as int
                } else {
                    0
                },
            ) as usize,
    )
}

impl<P> MenuSession<P> {
    /// A closed session.
    pub fn new() -> (session: Self)
        ensures
            session_closed(session),
    {
        MenuSession {
            open: None,
            last_overlay_structure: None,
            open_path: Vec::new(),
            hover_path: Vec::new(),
            hover_started_at: None,
            focused_indices: Vec::new(),
        }
    }

    /// Closes the menu; returns whether it was open, which is when the close is reported.
    pub fn close_menu(&mut self) -> (was_open: bool)
        ensures
            was_open == old(self).open is Some,
            session_closed(*final(self)),
    {
        let was_open = self.open.is_some();
        self.open = None;
        self.last_overlay_structure = None;
        self.open_path.clear();
        self.hover_path.clear();
        self.hover_started_at = None;
        self.focused_indices.clear();
        was_open
    }

    /// Opens the menu at `at`, with nothing open, hovered or focused yet.
    pub fn open_at(&mut self, at: P) -> (out: Outcome)
        ensures
            final(self).open == Some(at),
            final(self).last_overlay_structure is None,
            final(self).open_path@.len() == 0,
            final(self).hover_path@.len() == 0,
            final(self).hover_started_at is None,
            final(self).focused_indices@.len() == 0,
            out == (Outcome {
                opened: true,
                select: None,
                closed: false,
                relayout: false,
                redraw: false,
                capture: true,
            }),
    {
        self.open = Some(at);
        self.last_overlay_structure = None;
        self.open_path.clear();
        self.hover_path.clear();
        self.hover_started_at = None;
        self.focused_indices.clear();
        Outcome { opened: true, select: None, closed: false, relayout: false, redraw: false, capture: true }
    }

    /// Reports `id` as picked, and closes the menu when `close_on_select`.
    pub fn select_item(&mut self, id: MenuItemId, close_on_select: bool) -> (out: Outcome)
        ensures
            close_on_select ==> session_closed(*final(self)) && out == outcome(
                Some(id),
                old(self).open is Some,
                false,
                false,
            ),
            !close_on_select ==> *final(self) == *old(self) && out == outcome(
                Some(id),
                false,
                false,
                false,
            ),
    {
        if close_on_select {
            let was_open = self.close_menu();
            Outcome::of(Some(id), was_open, false, false)
        } else {
            Outcome::of(Some(id), false, false, false)
        }
    }
}

/// What a key does once focus has settled to `focused` on the panels shown, the deepest of which
/// is panel `active`, with row kinds `ks`: Escape closes the menu, up and down walk that panel,
/// right opens its focused submenu, left closes the deepest flyout, and Enter picks the focused
/// row. `base` is the session the fields focus leaves alone are taken from.
#[verifier::opaque]
pub open spec fn key_step<P>(
    base: MenuSession<P>,
    new: MenuSession<P>,
    out: Outcome,
    focused: Seq<usize>,
    active: int,
    ks: Seq<RowKind>,
    key: NavKey,
    close_on_select: bool,
) -> bool {
    let open = base.open_path@;
    let f = focused[active];
    match key {
        NavKey::Escape => session_closed(new) && out == outcome(None, base.open is Some, true, true),
        NavKey::ArrowDown => session_moved(
            base,
            new,
            open,
            focused.update(active, moved_focus(ks, f, 1)),
        ) && out == outcome(None, false, false, true),
        NavKey::ArrowUp => session_moved(
            base,
            new,
            open,
            focused.update(active, moved_focus(ks, f, -1)),
        ) && out == outcome(None, false, false, true),
        NavKey::ArrowRight => if f < ks.len() && ks[f as int] is Submenu {
            session_moved(base, new, open.push(ks[f as int]->child_index), focused) && out
                == outcome(None, false, true, true)
        } else {
            session_moved(base, new, open, focused) && out == no_outcome()
        },
        NavKey::ArrowLeft => if open.len() > 0 {
            session_moved(base, new, open.drop_last(), focused) && out == outcome(
                None,
                false,
                true,
                true,
            )
        } else {
            session_moved(base, new, open, focused) && out == no_outcome()
        },
        NavKey::Enter => if f < ks.len() {
            match ks[f as int] {
                RowKind::Action(id) => if close_on_select {
                    session_closed(new) && out == outcome(Some(id), base.open is Some, false, true)
                } else {
                    session_moved(base, new, open, focused) && out == outcome(
                        Some(id),
                        false,
                        false,
                        true,
                    )
                },
                RowKind::Submenu { child_index } => session_moved(
                    base,
                    new,
                    open.push(child_index),
                    focused,
                ) && out == outcome(None, false, true, true),
                _ => session_moved(base, new, open, focused) && out == outcome(
                    None,
                    false,
                    false,
                    true,
                ),
            }
        } else {
            session_moved(base, new, open, focused) && out == no_outcome()
        },
        NavKey::Other => session_moved(base, new, open, focused) && out == no_outcome(),
    }
}

/// What a key does to the widget's session: nothing while the menu is closed; otherwise focus is
/// first settled on every panel the open path shows, and the key acts on the deepest of them.
pub open spec fn session_keyed<P>(
    old: MenuSession<P>,
    new: MenuSession<P>,
    out: Outcome,
    nodes: Seq<MenuNode>,
    key: NavKey,
    close_on_select: bool,
) -> bool {
    if old.open is None {
        new == old && out == no_outcome()
    } else {
        let active = reach(nodes, old.open_path@) as int;
        key_step(
            old,
            new,
            out,
            settled_all(nodes, old.open_path@, old.focused_indices@),
            active,
            panel_kinds(nodes, old.open_path@, active),
            key,
            close_on_select,
        )
    }
}

/// [`key_step`] reads of its base session only what focus leaves alone.
pub proof fn lemma_key_step_base<P>(
    b1: MenuSession<P>,
    b2: MenuSession<P>,
    new: MenuSession<P>,
    out: Outcome,
    focused: Seq<usize>,
    active: int,
    ks: Seq<RowKind>,
    key: NavKey,
    close_on_select: bool,
)
    requires
        b1.open == b2.open,
        b1.last_overlay_structure == b2.last_overlay_structure,
        b1.open_path@ == b2.open_path@,
        b1.hover_path == b2.hover_path,
        b1.hover_started_at == b2.hover_started_at,
        key_step(b1, new, out, focused, active, ks, key, close_on_select),
    ensures
        key_step(b2, new, out, focused, active, ks, key, close_on_select),
{
    reveal(key_step);
}

/// A settled focus is a row of its panel, or `0`.
pub proof fn lemma_settled_in_range(ks: Seq<RowKind>, v: int)
    ensures
        settled_focus(ks, v) == 0 || 0 <= settled_focus(ks, v) < ks.len(),
{
    lemma_first_focusable_from(ks, 0);
}

/// Acts on `key` once focus has settled, on the deepest of `panels`.
fn apply_key<P>(
    session: &mut MenuSession<P>,
    panels: &Vec<PanelModel>,
    key: NavKey,
    close_on_select: bool,
) -> (out: Outcome)
    requires
        panels@.len() >= 1,
        old(session).focused_indices@.len() == panels@.len(),
        old(session).open is Some,
        panels@[panels@.len() - 1].rows@.len() < i32::MAX,
        ({
            let active = panels@.len() - 1;
            let f = old(session).focused_indices@[active];
            f == 0 || f < panels@[active].rows@.len()
        }),
    ensures
        key_step(
            *old(session),
            *final(session),
            out,
            old(session).focused_indices@,
            panels@.len() - 1,
            kinds(panels@[panels@.len() - 1].rows@),
            key,
            close_on_select,
        ),
{
    reveal(key_step);
    let active = panels.len() - 1;
    let ghost ks = kinds(panels@[active as int].rows@);
    let f = session.focused_indices[active];
    proof {
        assert(ks.len() == panels@[active as int].rows@.len());
    }
    match key {
        NavKey::Escape => {
            let was_open = session.close_menu();
            Outcome::of(None, was_open, true, true)
        },
        NavKey::ArrowDown | NavKey::ArrowUp => {
            let dir: i32 = match key {
                NavKey::ArrowDown => 1,
                _ => -1,
            };
            let mut focus = f;
            proof {
                if ks.len() > 0 {
                    lemma_unit_kind_scan_fits(ks, f as i32 as int, dir as int, ks.len() as nat);
                }
            }
            move_focus(&panels[active], &mut focus, dir);
            session.focused_indices.set(active, focus);
            Outcome::of(None, false, false, true)
        },
        NavKey::ArrowRight => {
            if f < panels[active].rows.len() {
                if let RowKind::Submenu { child_index } = panels[active].rows[f].kind {
                    session.open_path.push(child_index);
                    return Outcome::of(None, false, true, true);
                }
            }
            Outcome::none()
        },
        NavKey::ArrowLeft => {
            if session.open_path.len() > 0 {
                session.open_path.pop();
                return Outcome::of(None, false, true, true);
            }
            Outcome::none()
        },
        NavKey::Enter => {
            if f < panels[active].rows.len() {
                match panels[active].rows[f].kind {
                    RowKind::Action(id) => {
                        let picked = session.select_item(id, close_on_select);
                        Outcome::of(picked.select, picked.closed, false, true)
                    },
                    RowKind::Submenu { child_index } => {
                        session.open_path.push(child_index);
                        Outcome::of(None, false, true, true)
                    },
                    _ => Outcome::of(None, false, false, true),
                }
            } else {
                Outcome::none()
            }
        },
        NavKey::Other => Outcome::none(),
    }
}

/// Builds the panels the open path shows and settles focus on each of them; returns the panels.
fn settle_focus<P>(session: &mut MenuSession<P>, nodes: &[MenuNode]) -> (panels: Vec<PanelModel>)
    ensures
        panels@.len() == reach(nodes@, old(session).open_path@) + 1,
        panels@.len() >= 1,
        reach(nodes@, old(session).open_path@) <= old(session).open_path@.len(),
        kinds(panels@[panels@.len() - 1].rows@) == panel_kinds(
            nodes@,
            old(session).open_path@,
            panels@.len() - 1,
        ),
        panel_kinds(nodes@, old(session).open_path@, panels@.len() - 1) == row_kinds(
            resolve(nodes@, old(session).open_path@),
        ),
        session_moved(
            *old(session),
            *final(session),
            old(session).open_path@,
            settled_all(nodes@, old(session).open_path@, old(session).focused_indices@),
        ),
{
    let ghost open = session.open_path@;
    let ghost settled = settled_all(nodes@, open, session.focused_indices@);
    let panels = build_panels(nodes, &session.open_path);
    ensure_focus_len(&panels, &mut session.focused_indices);
    proof {
        lemma_reach(nodes@, open, 0);
        let active = panels@.len() - 1;
        lemma_reach(nodes@, open, active);
        assert(shows_panel(nodes@, open.subrange(0, active), panels@[active]));
        assert forall|i: int| 0 <= i < panels@.len() implies kinds(#[trigger] panels@[i].rows@)
            == panel_kinds(nodes@, open, i) by {
            assert(shows_panel(nodes@, open.subrange(0, i), panels@[i]));
        }
        assert(session.focused_indices@ =~= settled);
    }
    panels
}

/// Keyboard handling of the widget while its menu is open.
pub fn handle_key<P>(
    session: &mut MenuSession<P>,
    nodes: &[MenuNode],
    key: NavKey,
    close_on_select: bool,
) -> (out: Outcome)
    requires
        resolve(nodes@, old(session).open_path@).len() < i32::MAX,
    ensures
        session_keyed(*old(session), *final(session), out, nodes@, key, close_on_select),
{
    if session.open.is_none() {
        return Outcome::none();
    }
    let ghost old_focused = session.focused_indices@;
    let panels = settle_focus(session, nodes);
    let ghost mid = *session;
    let ghost active = panels@.len() - 1;
    let ghost ks = kinds(panels@[active].rows@);
    proof {
        assert(ks.len() == panels@[active].rows@.len());
        let v = if active < old_focused.len() {
            old_focused[active] as int
        } else {
            0
        };
        lemma_settled_in_range(ks, v);
        assert(session.focused_indices@[active] as int == settled_focus(ks, v));
    }
    let out = apply_key(session, &panels, key, close_on_select);
    proof {
        lemma_key_step_base(
            mid,
            *old(session),
            *session,
            out,
            mid.focused_indices@,
            active,
            ks,
            key,
            close_on_select,
        );
    }
    out
}

/// What the overlay's rows report does to the session: a close closes the menu; an open-path
/// request opens that path in click modes; a selection is reported and closes the menu when
/// `close_on_select`. Every report is captured; the others re-lay the overlay out.
pub fn apply_overlay_event<P>(
    session: &mut MenuSession<P>,
    event: OverlayEvent,
    mode: SubmenuOpenMode,
    close_on_select: bool,
) -> (out: Outcome)
    ensures
        match event {
            OverlayEvent::Close => session_closed(*final(session)) && out == outcome(
                None,
                old(session).open is Some,
                true,
                true,
            ),
            OverlayEvent::Inert => *final(session) == *old(session) && out == outcome(
                None,
                false,
                false,
                true,
            ),
            OverlayEvent::OpenPath(path) => if mode != SubmenuOpenMode::Hover {
                session_moved(*old(session), *final(session), path@, old(session).focused_indices@)
                    && out == outcome(None, false, true, true)
            } else {
                *final(session) == *old(session) && out == no_outcome()
            },
            OverlayEvent::Select(id) => if close_on_select {
                session_closed(*final(session)) && out == outcome(
                    Some(id),
                    old(session).open is Some,
                    true,
                    true,
                )
            } else {
                *final(session) == *old(session) && out == outcome(Some(id), false, false, true)
            },
        },
{
    match event {
        OverlayEvent::Close => {
            let was_open = session.close_menu();
            Outcome::of(None, was_open, true, true)
        },
        OverlayEvent::Inert => Outcome::of(None, false, false, true),
        OverlayEvent::OpenPath(path) => {
            if mode != SubmenuOpenMode::Hover {
                session.open_path = path;
                Outcome::of(None, false, true, true)
            } else {
                Outcome::none()
            }
        },
        OverlayEvent::Select(id) => {
            if close_on_select {
                let was_open = session.close_menu();
                Outcome::of(Some(id), was_open, true, true)
            } else {
                Outcome::of(Some(id), false, false, true)
            }
        },
    }
}


// ---------------------------------------------------------------------------------------------
// Properties.
// ---------------------------------------------------------------------------------------------

/// A focus step lands only on a row focus can land on.
pub proof fn lemma_kind_scan_lands(ks: Seq<RowKind>, cur: int, dir: int, rem: nat)
    requires
        ks.len() > 0,
    ensures
        cyclic_scan_hit(ks, cur, dir, rem),
    decreases rem,
{
    if rem > 0 {
        let next = (cur + dir) % (ks.len() as int);
        lemma_kind_scan_lands(ks, next, dir, (rem - 1) as nat);
    }
}

pub open spec fn cyclic_scan_hit(ks: Seq<RowKind>, cur: int, dir: int, rem: nat) -> bool {
    match kind_scan(ks, cur, dir, rem) {
        Some(i) => row_focusable(ks, i),
        None => true,
    }
}

/// `move_focus` leaves focus on a row it can land on, or where it was when it found none.
pub proof fn lemma_moved_focus_lands(ks: Seq<RowKind>, focus: usize, dir: int)
    requires
        0 < ks.len() <= usize::MAX,
    ensures
        row_focusable(ks, moved_focus(ks, focus, dir) as int) || moved_focus(ks, focus, dir)
            == focus,
{
    let start = focus as i32 as int;
    lemma_kind_scan_lands(ks, start, dir, ks.len() as nat);
    match kind_scan(ks, start, dir, ks.len() as nat) {
        Some(i) => {
            assert(row_focusable(ks, i));
            assert((i as usize) as int == i);
        },
        None => {},
    }
}

/// Settled focus is on a row focus can land on, or at `0` in a panel that has no such row.
pub proof fn lemma_settled_focus_lands(ks: Seq<RowKind>, v: int)
    ensures
        row_focusable(ks, settled_focus(ks, v)) || (settled_focus(ks, v) == 0 && forall|j: int|
            0 <= j < ks.len() ==> !row_focusable(ks, j)),
{
    lemma_first_focusable_from(ks, 0);
}

/// The arrow keys walk the deepest shown panel in row order: from the settled focus `f`, Down
/// moves to row `f + 1` and Up to row `f - 1` whenever focus can land there, and neither opens
/// or closes a panel.
pub proof fn lemma_session_arrows_follow_row_order<P>(
    old: MenuSession<P>,
    new: MenuSession<P>,
    out: Outcome,
    nodes: Seq<MenuNode>,
    key: NavKey,
    close_on_select: bool,
    active: int,
    ks: Seq<RowKind>,
    f: int,
)
    requires
        old.open is Some,
        session_keyed(old, new, out, nodes, key, close_on_select),
        active == reach(nodes, old.open_path@),
        ks == panel_kinds(nodes, old.open_path@, active),
        f == settled_all(nodes, old.open_path@, old.focused_indices@)[active] as int,
        ks.len() <= i32::MAX,
    ensures
        key == NavKey::ArrowDown && row_focusable(ks, f + 1) ==> new.focused_indices@[active] == f
            + 1,
        key == NavKey::ArrowUp && row_focusable(ks, f - 1) ==> new.focused_indices@[active] == f
            - 1,
        key == NavKey::ArrowDown || key == NavKey::ArrowUp ==> new.open_path@ == old.open_path@
            && out.select is None && !out.closed,
{
    reveal(key_step);
    let v = if active < old.focused_indices@.len() {
        old.focused_indices@[active] as int
    } else {
        0
    };
    lemma_settled_in_range(ks, v);
    assert(f == settled_focus(ks, v));
    if key == NavKey::ArrowDown && row_focusable(ks, f + 1) {
        assert((f as usize) as i32 as int == f);
        vstd::arithmetic::div_mod::lemma_small_mod((f + 1) as nat, ks.len() as nat);
        assert(kind_scan(ks, f, 1, ks.len() as nat) == Some(f + 1));
    }
    if key == NavKey::ArrowUp && row_focusable(ks, f - 1) {
        assert((f as usize) as i32 as int == f);
        vstd::arithmetic::div_mod::lemma_small_mod((f - 1) as nat, ks.len() as nat);
        assert(kind_scan(ks, f, -1, ks.len() as nat) == Some(f - 1));
    }
}

/// A step of `move_focus` goes in row order: Down (`1`) from row `f` lands on row `f + 1` and
/// Up (`-1`) on row `f - 1` whenever focus can land there.
pub proof fn lemma_moved_focus_in_row_order(ks: Seq<RowKind>, f: usize)
    requires
        f < ks.len() <= i32::MAX,
    ensures
        row_focusable(ks, f + 1) ==> moved_focus(ks, f, 1) == f + 1,
        row_focusable(ks, f - 1) ==> moved_focus(ks, f, -1) == f - 1,
{
    assert(f as i32 as int == f);
    if row_focusable(ks, f + 1) {
        vstd::arithmetic::div_mod::lemma_small_mod((f + 1) as nat, ks.len() as nat);
        assert(kind_scan(ks, f as int, 1, ks.len() as nat) == Some(f + 1));
    }
    if row_focusable(ks, f - 1) {
        vstd::arithmetic::div_mod::lemma_small_mod((f - 1) as nat, ks.len() as nat);
        assert(kind_scan(ks, f as int, -1, ks.len() as nat) == Some(f - 1));
    }
}

/// An action row is labelled with the title of an enabled action that carries the row's own id,
/// and it is labelled whenever the panel has one.
pub proof fn lemma_action_row_label(nodes: Seq<MenuNode>, id: MenuItemId, seen: int)
    ensures
        label_scan(nodes, RowKind::Action(id), seen) matches Some(t) ==> exists|i: int|
            0 <= i < nodes.len() && (#[trigger] nodes[i]) is Action && nodes[i]->Action_id == id
                && nodes[i]->Action_enabled && nodes[i]->Action_title@ == t,
        (exists|i: int|
            0 <= i < nodes.len() && (#[trigger] nodes[i]) is Action && nodes[i]->Action_id == id
                && nodes[i]->Action_enabled) ==> label_scan(nodes, RowKind::Action(id), seen) is Some,
    decreases nodes.len(),
{
    if nodes.len() > 0 {
        let rest = nodes.drop_first();
        lemma_action_row_label(rest, id, seen);
        lemma_action_row_label(rest, id, seen + 1);
        assert forall|i: int| 0 < i < nodes.len() implies nodes[i] == rest[i - 1] by {}
        if let Some(t) = label_scan(nodes, RowKind::Action(id), seen) {
            if !(nodes[0] is Action && nodes[0]->Action_id == id && nodes[0]->Action_enabled) {
                let j = choose|j: int|
                    0 <= j < rest.len() && (#[trigger] rest[j]) is Action && rest[j]->Action_id == id
                        && rest[j]->Action_enabled && rest[j]->Action_title@ == t;
                assert(nodes[j + 1] == rest[j]);
            }
        }
        if exists|i: int|
            0 <= i < nodes.len() && (#[trigger] nodes[i]) is Action && nodes[i]->Action_id == id
                && nodes[i]->Action_enabled {
            let i = choose|i: int|
                0 <= i < nodes.len() && (#[trigger] nodes[i]) is Action && nodes[i]->Action_id == id
                    && nodes[i]->Action_enabled;
            if i > 0 {
                assert(rest[i - 1] == nodes[i]);
            }
        }
    }
}

/// What the other keys do to an open session, on the deepest shown panel with settled focus `f`
/// and row kinds `ks`: Escape closes the menu; Enter on an action row reports its id and closes
/// the menu exactly when `close_on_select`; Enter or Right on a submenu row opens that submenu;
/// Left closes the deepest flyout.
pub proof fn lemma_session_keys<P>(
    old: MenuSession<P>,
    new: MenuSession<P>,
    out: Outcome,
    nodes: Seq<MenuNode>,
    key: NavKey,
    close_on_select: bool,
    active: int,
    ks: Seq<RowKind>,
    f: int,
)
    requires
        old.open is Some,
        session_keyed(old, new, out, nodes, key, close_on_select),
        active == reach(nodes, old.open_path@),
        ks == panel_kinds(nodes, old.open_path@, active),
        f == settled_all(nodes, old.open_path@, old.focused_indices@)[active] as int,
    ensures
        key == NavKey::Escape ==> new.open is None && new.open_path@.len() == 0 && out.closed,
        key == NavKey::Enter && 0 <= f < ks.len() && ks[f] is Action ==> out.select == Some(
            ks[f]->Action_0,
        ) && (close_on_select ==> new.open is None && out.closed) && (!close_on_select
            ==> new.open == old.open && !out.closed),
        (key == NavKey::Enter || key == NavKey::ArrowRight) && 0 <= f < ks.len() && ks[f] is Submenu
            ==> new.open_path@ == old.open_path@.push(ks[f]->child_index) && new.open == old.open,
        key == NavKey::ArrowLeft && old.open_path@.len() > 0 ==> new.open_path@
            == old.open_path@.drop_last() && new.open == old.open,
        key == NavKey::ArrowLeft && old.open_path@.len() == 0 ==> new.open_path@ == old.open_path@,
{
    reveal(key_step);
}

proof fn lemma_submenu_count_first(nodes: Seq<MenuNode>, i: int)
    requires
        1 <= i <= nodes.len(),
    ensures
        submenu_count(nodes.subrange(0, i)) == (if nodes[0] is Submenu {
            1nat
        } else {
            0nat
        }) + submenu_count(nodes.subrange(1, i)),
    decreases i,
{
    let a = nodes.subrange(0, i);
    let b = nodes.subrange(1, i);
    if i == 1 {
        assert(a.drop_last() =~= Seq::<MenuNode>::empty());
        assert(b =~= Seq::<MenuNode>::empty());
    } else {
        lemma_submenu_count_first(nodes, i - 1);
        assert(a.drop_last() =~= nodes.subrange(0, i - 1));
        assert(b.drop_last() =~= nodes.subrange(1, i - 1));
    }
}

proof fn lemma_submenu_rank(nodes: Seq<MenuNode>, i: int)
    requires
        0 <= i < nodes.len(),
        nodes[i] is Submenu,
    ensures
        nth_submenu(nodes, submenu_count(nodes.subrange(0, i)) as int) == Some(
            nodes[i]->Submenu_children@,
        ),
    decreases i,
{
    if i == 0 {
        assert(nodes.subrange(0, 0) =~= Seq::<MenuNode>::empty());
    } else {
        let rest = nodes.drop_first();
        lemma_submenu_count_first(nodes, i);
        assert(nodes.subrange(1, i) =~= rest.subrange(0, i - 1));
        assert(rest[i - 1] == nodes[i]);
        lemma_submenu_rank(rest, i - 1);
    }
}

/// The rows of a panel stand for its nodes: focus can land on a row exactly when it is made from
/// an enabled action or a submenu; an enabled action's row carries that action's id; and a
/// submenu's row carries the rank that opens exactly that submenu's children.
pub proof fn lemma_rows_stand_for_nodes(nodes: Seq<MenuNode>, i: int)
    requires
        0 <= i < nodes.len(),
        nodes.len() <= usize::MAX,
    ensures
        kind_focusable(row_kinds(nodes)[i]) == (nodes[i] is Submenu || (nodes[i] is Action
            && nodes[i]->Action_enabled)),
        nodes[i] is Action && nodes[i]->Action_enabled ==> row_kinds(nodes)[i] == RowKind::Action(
            nodes[i]->Action_id,
        ),
        nodes[i] is Submenu ==> row_kinds(nodes)[i] is Submenu && nth_submenu(
            nodes,
            row_kinds(nodes)[i]->child_index as int,
        ) == Some(nodes[i]->Submenu_children@),
{
    lemma_submenu_count_bound(nodes.subrange(0, i));
    if nodes[i] is Submenu {
        lemma_submenu_rank(nodes, i);
    }
}

} // verus!
