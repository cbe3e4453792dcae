//! A collapsible tree: its nodes, which rows are visible, and how the keyboard
//! and the pointer expand, collapse and select them.
//!
//! A [`TreeView`] keeps its nodes as a list of rows in pre-order, each with its
//! depth; a row is visible when no collapsed branch lies above it.  Rows are
//! addressed by their position among the visible rows (the "flat index").
use vstd::prelude::*;

use crate::keys::{Key, KeyEvent, NamedKey, is_named};

verus! {

/// A node in the tree structure.
pub struct TreeNode {
    pub label: String,
    pub icon: Option<&'static str>,
    pub children: Vec<TreeNode>,
    pub expanded: bool,
}

impl TreeNode {
    /// A node without children.
    pub fn leaf(label: &str) -> (n: Self)
        ensures
            n.label@ == label@,
            n.icon is None,
            n.children@.len() == 0,
            !n.expanded,
    {
        TreeNode { label: String::from_str(label), icon: None, children: Vec::new(), expanded: false }
    }

    /// A node with children, expanded.
    pub fn branch(label: &str, children: Vec<TreeNode>) -> (n: Self)
        ensures
            n.label@ == label@,
            n.icon is None,
            n.children == children,
            n.expanded,
    {
        TreeNode { label: String::from_str(label), icon: None, children, expanded: true }
    }

    /// Sets the icon drawn before the label.
    pub fn with_icon(self, icon: &'static str) -> (n: Self)
        ensures
            n == (TreeNode { icon: Some(icon), ..self }),
    {
        TreeNode { icon: Some(icon), ..self }
    }

    /// Sets whether the node starts expanded.
    pub fn with_expanded(self, expanded: bool) -> (n: Self)
        ensures
            n == (TreeNode { expanded: expanded, ..self }),
    {
        TreeNode { expanded, ..self }
    }

    /// Whether the node has children.
    pub fn is_branch(&self) -> (b: bool)
        ensures
            b == (self.children@.len() > 0),
    {
        self.children.len() > 0
    }
}

/// One row of a tree in pre-order: a node without its children, at its depth.
pub struct TreeRow {
    pub label: String,
    pub icon: Option<&'static str>,
    pub depth: usize,
    pub expanded: bool,
    pub is_branch: bool,
}

/// The abstract value of a row.
pub struct RowModel {
    pub label: Seq<char>,
    pub icon: Option<&'static str>,
    pub depth: int,
    pub expanded: bool,
    pub is_branch: bool,
}

pub open spec fn row_model(r: TreeRow) -> RowModel {
    RowModel {
        label: r.label@,
        icon: r.icon,
        depth: r.depth as int,
        expanded: r.expanded,
        is_branch: r.is_branch,
    }
}

/// The rows of a forest in pre-order, the roots at depth `depth`.
pub open spec fn flatten(nodes: Seq<TreeNode>, depth: int) -> Seq<RowModel>
    decreases nodes,
{
    if nodes.len() == 0 {
        Seq::empty()
    } else {
        flatten_node(nodes[0], depth) + flatten(nodes.drop_first(), depth)
    }
}

/// The rows of a node and its descendants.
pub open spec fn flatten_node(n: TreeNode, depth: int) -> Seq<RowModel>
    decreases n,
{
    seq![
        RowModel {
            label: n.label@,
            icon: n.icon,
            depth: depth,
            expanded: n.expanded,
            is_branch: n.children@.len() > 0,
        },
    ] + flatten(n.children@, depth + 1)
}

/// The positions of the visible rows from row `i` on.  `hide` is the depth of
/// the collapsed branch being passed over, if any: rows deeper than it are
/// hidden, and the first row at its depth or above ends it.
pub open spec fn visible_from(rows: Seq<RowModel>, i: nat, hide: Option<int>) -> Seq<int>
    decreases rows.len() - i,
{
    if i >= rows.len() {
        Seq::empty()
    } else {
        let d = rows[i as int].depth;
        if hide is Some && d > hide->0 {
            visible_from(rows, i + 1, hide)
        } else {
            let next = if rows[i as int].is_branch && !rows[i as int].expanded {
                Some(d)
            } else {
                None
            };
            seq![i as int] + visible_from(rows, i + 1, next)
        }
    }
}

/// The positions of the visible rows, top to bottom.
pub open spec fn visible(rows: Seq<RowModel>) -> Seq<int> {
    visible_from(rows, 0, None)
}

/// The abstract state of a tree view.
pub struct TreeModel {
    pub rows: Seq<RowModel>,
    pub hover: Option<int>,
    pub selected: Option<int>,
    pub focus: bool,
}

impl TreeModel {
    /// The number of visible rows.
    pub open spec fn count(self) -> int {
        visible(self.rows).len() as int
    }

    /// The branch at flat index `flat`, with its expanded flag set to `e`;
    /// anything else leaves the rows as they are.
    pub open spec fn set_expanded(self, flat: int, e: bool) -> TreeModel {
        if 0 <= flat < self.count() && self.rows[visible(self.rows)[flat]].is_branch {
            let k = visible(self.rows)[flat];
            TreeModel { rows: self.rows.update(k, RowModel { expanded: e, ..self.rows[k] }), ..self }
        } else {
            self
        }
    }

    /// The node at flat index `flat` expanded if collapsed and collapsed if
    /// expanded (when it is a branch).
    pub open spec fn toggle(self, flat: int) -> TreeModel {
        if 0 <= flat < self.count() {
            self.set_expanded(flat, !self.rows[visible(self.rows)[flat]].expanded)
        } else {
            self
        }
    }

    /// Whether the node at flat index `flat` exists, is a branch, and has
    /// expanded flag `e`.
    pub open spec fn branch_with(self, flat: int, e: bool) -> bool {
        0 <= flat < self.count() && self.rows[visible(self.rows)[flat]].is_branch
            && self.rows[visible(self.rows)[flat]].expanded == e
    }
}

/// A tree view's state: the rows of its forest, the hovered and the selected
/// flat index, and whether it has focus.
pub struct TreeView {
    rows: Vec<TreeRow>,
    hover_flat_idx: Option<usize>,
    selected_flat_idx: Option<usize>,
    focus: bool,
}

impl View for TreeView {
    type V = TreeModel;

    closed spec fn view(&self) -> TreeModel {
        TreeModel {
            rows: self.rows@.map_values(|r: TreeRow| row_model(r)),
            hover: match self.hover_flat_idx {
                Some(i) => Some(i as int),
                None => None,
            },
            selected: match self.selected_flat_idx {
                Some(i) => Some(i as int),
                None => None,
            },
            focus: self.focus,
        }
    }
}

proof fn lemma_forest_rows_split(nodes: Seq<TreeNode>, depth: int, i: int)
    requires
        0 <= i < nodes.len(),
    ensures
        flatten(nodes.subrange(i, nodes.len() as int), depth) == flatten_node(nodes[i], depth) + flatten(
            nodes.subrange(i + 1, nodes.len() as int),
            depth,
        ),
{
    let s = nodes.subrange(i, nodes.len() as int);
    assert(s[0] == nodes[i]);
    assert(s.drop_first() =~= nodes.subrange(i + 1, nodes.len() as int));
}

proof fn lemma_flatten_suffix_len(nodes: Seq<TreeNode>, depth: int, i: int)
    requires
        0 <= i <= nodes.len(),
    ensures
        flatten(nodes.subrange(i, nodes.len() as int), depth).len() <= flatten(nodes, depth).len(),
    decreases i,
{
    if i == 0 {
        assert(nodes.subrange(0, nodes.len() as int) =~= nodes);
    } else {
        lemma_flatten_suffix_len(nodes, depth, i - 1);
        lemma_forest_rows_split(nodes, depth, i - 1);
    }
}

/// Appends the pre-order rows of `nodes` (at depth `depth`) to `out`.
fn flatten_into(nodes: &Vec<TreeNode>, depth: usize, out: &mut Vec<TreeRow>)
    requires
        depth + flatten(nodes@, depth as int).len() <= usize::MAX,
    ensures
        final(out)@.map_values(|r: TreeRow| row_model(r)) == old(out)@.map_values(|r: TreeRow| row_model(r))
            + flatten(nodes@, depth as int),
    decreases nodes@,
{
    let n = nodes.len();
    let mut i: usize = 0;
    proof {
        assert(nodes@.subrange(0, n as int) =~= nodes@);
    }
    while i < n
        invariant
            n == nodes@.len(),
            i <= n,
            depth + flatten(nodes@, depth as int).len() <= usize::MAX,
            out@.map_values(|r: TreeRow| row_model(r)) + flatten(nodes@.subrange(i as int, n as int), depth as int)
                == old(out)@.map_values(|r: TreeRow| row_model(r)) + flatten(nodes@, depth as int),
        decreases n - i,
    {
        let node = &nodes[i];
        proof {
            lemma_forest_rows_split(nodes@, depth as int, i as int);
            lemma_flatten_suffix_len(nodes@, depth as int, i as int);
            assert(decreases_to!(nodes@ => nodes@[i as int]));
            assert(decreases_to!(nodes@[i as int] => nodes@[i as int].children));
            assert(decreases_to!(nodes@[i as int].children => nodes@[i as int].children@));
        }
        let ghost before = out@.map_values(|r: TreeRow| row_model(r));
        let ghost head = flatten_node(*node, depth as int)[0];
        out.push(
            TreeRow {
                label: node.label.clone(),
                icon: node.icon,
                depth,
                expanded: node.expanded,
                is_branch: node.children.len() > 0,
            },
        );
        assert(out@.map_values(|r: TreeRow| row_model(r)) =~= before.push(head));
        flatten_into(&node.children, depth + 1, out);
        proof {
            assert(flatten_node(*node, depth as int) =~= seq![head] + flatten(node.children@, depth + 1));
            assert(out@.map_values(|r: TreeRow| row_model(r)) =~= before + flatten_node(*node, depth as int));
        }
        i = i + 1;
    }
}


/// The flat index the arrow keys move from: the selected one, or 0.
pub open spec fn current(sel: Option<int>) -> int {
    match sel {
        Some(i) => i,
        None => 0,
    }
}

/// A key on a focused tree view: the state after it and whether it was
/// taken.  Down and Up move the selection one visible row (from row 0 when
/// nothing is selected), stopping at the ends; Right expands a selected
/// collapsed branch and Left collapses a selected expanded one; Space and
/// Enter toggle the selected node.  Releases, other keys, and any key on an
/// empty tree are not taken.
pub open spec fn tree_key(m: TreeModel, event: KeyEvent) -> (TreeModel, bool) {
    if !event.pressed || m.count() == 0 {
        (m, false)
    } else {
        let n = m.count();
        let cur = current(m.selected);
        if event.is_named(NamedKey::ArrowDown) {
            (TreeModel { selected: Some(if cur + 1 < n - 1 { cur + 1 } else { n - 1 }), ..m }, true)
        } else if event.is_named(NamedKey::ArrowUp) {
            (TreeModel { selected: Some(if cur > 0 { cur - 1 } else { 0 }), ..m }, true)
        } else if event.is_named(NamedKey::ArrowRight) {
            let c = m.selected is Some && m.branch_with(m.selected->0, false);
            (if c { m.set_expanded(m.selected->0, true) } else { m }, c)
        } else if event.is_named(NamedKey::ArrowLeft) {
            let c = m.selected is Some && m.branch_with(m.selected->0, true);
            (if c { m.set_expanded(m.selected->0, false) } else { m }, c)
        } else if event.is_named(NamedKey::Space) || event.is_named(NamedKey::Enter) {
            let c = m.selected is Some;
            (if c { m.toggle(m.selected->0) } else { m }, c)
        } else {
            (m, false)
        }
    }
}

impl TreeView {
    /// A tree view of the forest `roots`: nothing hovered or selected, no focus.
    pub fn new(roots: Vec<TreeNode>) -> (t: Self)
        requires
            flatten(roots@, 0).len() <= usize::MAX,
        ensures
            t@.rows == flatten(roots@, 0),
            t@.hover is None,
            t@.selected is None,
            !t@.focus,
    {
        let mut rows: Vec<TreeRow> = Vec::new();
        flatten_into(&roots, 0, &mut rows);
        assert(rows@.map_values(|r: TreeRow| row_model(r)) =~= flatten(roots@, 0));
        TreeView { rows, hover_flat_idx: None, selected_flat_idx: None, focus: false }
    }

    /// The positions of the visible rows, top to bottom (the row at flat index
    /// `i` is `rows[visible_rows()[i]]`).
    pub fn visible_rows(&self) -> (v: Vec<usize>)
        ensures
            v@.map_values(|i: usize| i as int) == visible(self@.rows),
    {
        let ghost rows = self@.rows;
        let n = self.rows.len();
        let mut out: Vec<usize> = Vec::new();
        let mut cut: Option<usize> = None;
        let mut i: usize = 0;
        while i < n
            invariant
                n == self.rows@.len() == rows.len(),
                rows == self@.rows,
                i <= n,
                out@.map_values(|k: usize| k as int) + visible_from(
                    rows,
                    i as nat,
                    match cut {
                        Some(h) => Some(h as int),
                        None => None,
                    },
                ) == visible(rows),
            decreases n - i,
        {
            let row = &self.rows[i];
            assert(rows[i as int] == row_model(*row));
            let hidden = match cut {
                Some(h) => row.depth > h,
                None => false,
            };
            let ghost h0 = match cut {
                Some(h) => Some(h as int),
                None => None::<int>,
            };
            if !hidden {
                let ghost before = out@.map_values(|k: usize| k as int);
                out.push(i);
                assert(out@.map_values(|k: usize| k as int) =~= before.push(i as int));
                let next_hide = if row.is_branch && !row.expanded {
                    Some(row.depth)
                } else {
                    None
                };
                cut = next_hide;
                assert(visible_from(rows, i as nat, h0) =~= seq![i as int] + visible_from(
                    rows,
                    (i + 1) as nat,
                    match cut {
                        Some(h) => Some(h as int),
                        None => None,
                    },
                ));
            }
            i = i + 1;
        }
        assert(out@.map_values(|k: usize| k as int) =~= visible(rows));
        out
    }

    /// The number of visible rows.
    pub fn visible_count(&self) -> (n: usize)
        ensures
            n == self@.count(),
    {
        let v = self.visible_rows();
        assert(v@.map_values(|i: usize| i as int).len() == v@.len());
        v.len()
    }

    /// The row at position `i` of the pre-order.
    pub fn row(&self, i: usize) -> (r: &TreeRow)
        requires
            i < self@.rows.len(),
        ensures
            row_model(*r) == self@.rows[i as int],
    {
        &self.rows[i]
    }

    /// The position of the row at flat index `flat`, if it is visible.
    fn node_at(&self, flat: usize) -> (k: Option<usize>)
        ensures
            flat < self@.count() ==> k is Some && k->0 as int == visible(self@.rows)[flat as int],
            flat >= self@.count() ==> k is None,
            k is Some ==> k->0 < self@.rows.len(),
    {
        let v = self.visible_rows();
        proof {
            visible_in_range(self@.rows, 0, None);
        }
        if flat < v.len() {
            assert(v@.map_values(|i: usize| i as int)[flat as int] == v@[flat as int] as int);
            Some(v[flat])
        } else {
            None
        }
    }

    fn set_expanded(&mut self, flat: usize, e: bool)
        ensures
            final(self)@ == old(self)@.set_expanded(flat as int, e),
    {
        match self.node_at(flat) {
            Some(k) => {
                if self.rows[k].is_branch {
                    let ghost r0 = self@.rows;
                    self.rows[k].expanded = e;
                    assert(self@.rows =~= r0.update(k as int, RowModel { expanded: e, ..r0[k as int] }));
                }
            },
            None => {},
        }
    }

    /// Expands the node at flat index `flat` if it is a collapsed branch, and
    /// collapses it if it is an expanded one.
    pub fn toggle(&mut self, flat: usize)
        ensures
            final(self)@ == old(self)@.toggle(flat as int),
    {
        match self.node_at(flat) {
            Some(k) => {
                let e = self.rows[k].expanded;
                assert(self@.rows[k as int] == row_model(self.rows@[k as int]));
                self.set_expanded(flat, !e);
            },
            None => {},
        }
    }

    /// A key while the tree has focus.  Down and Up move the selection one row
    /// (from row 0 when nothing is selected) within the visible rows; Right
    /// expands a collapsed branch and Left collapses an expanded one; Space and
    /// Enter toggle the selected node.  Returns whether the key was taken.
    pub fn handle_key_event(&mut self, event: &KeyEvent) -> (consumed: bool)
        requires
            old(self)@.selected is Some ==> old(self)@.selected->0 < usize::MAX,
        ensures
            final(self)@.hover == old(self)@.hover,
            final(self)@.focus == old(self)@.focus,
            final(self)@.selected is Some ==> final(self)@.selected->0 < usize::MAX,
            (final(self)@, consumed) == tree_key(old(self)@, *event),
            !event.pressed || old(self)@.count() == 0 ==> !consumed && final(self)@ == old(self)@,
            event.pressed && old(self)@.count() > 0 ==> {
                let m = old(self)@;
                let n = m.count();
                let cur = current(m.selected);
                if event.is_named(NamedKey::ArrowDown) {
                    consumed && final(self)@ == (TreeModel {
                        selected: Some(if cur + 1 < n - 1 { cur + 1 } else { n - 1 }),
                        ..m
                    })
                } else if event.is_named(NamedKey::ArrowUp) {
                    consumed && final(self)@ == (TreeModel {
                        selected: Some(if cur > 0 { cur - 1 } else { 0 }),
                        ..m
                    })
                } else if event.is_named(NamedKey::ArrowRight) {
                    consumed == (m.selected is Some && m.branch_with(m.selected->0, false))
                        && final(self)@ == (if consumed {
                        m.set_expanded(m.selected->0, true)
                    } else {
                        m
                    })
                } else if event.is_named(NamedKey::ArrowLeft) {
                    consumed == (m.selected is Some && m.branch_with(m.selected->0, true))
                        && final(self)@ == (if consumed {
                        m.set_expanded(m.selected->0, false)
                    } else {
                        m
                    })
                } else if event.is_named(NamedKey::Space) || event.is_named(NamedKey::Enter) {
                    consumed == m.selected is Some && final(self)@ == (if consumed {
                        m.toggle(m.selected->0)
                    } else {
                        m
                    })
                } else {
                    !consumed && final(self)@ == m
                }
            },
    {
        if !event.pressed {
            return false;
        }
        let count = self.visible_count();
        if count == 0 {
            return false;
        }
        let key = &event.key;
        let current = match self.selected_flat_idx {
            Some(i) => i,
            None => 0,
        };
        if is_named(key, NamedKey::ArrowDown) {
            let next = if current + 1 < count - 1 { current + 1 } else { count - 1 };
            self.selected_flat_idx = Some(next);
            true
        } else if is_named(key, NamedKey::ArrowUp) {
            self.selected_flat_idx = Some(current.saturating_sub(1));
            true
        } else if is_named(key, NamedKey::ArrowRight) || is_named(key, NamedKey::ArrowLeft) {
            let expand = is_named(key, NamedKey::ArrowRight);
            match self.selected_flat_idx {
                Some(idx) => {
                    match self.node_at(idx) {
                        Some(k) => {
                            assert(self@.rows[k as int] == row_model(self.rows@[k as int]));
                            if self.rows[k].is_branch && self.rows[k].expanded != expand {
                                self.set_expanded(idx, expand);
                                return true;
                            }
                            false
                        },
                        None => false,
                    }
                },
                None => false,
            }
        } else if is_named(key, NamedKey::Space) || is_named(key, NamedKey::Enter) {
            match self.selected_flat_idx {
                Some(idx) => {
                    self.toggle(idx);
                    true
                },
                None => false,
            }
        } else {
            false
        }
    }

    /// The pointer moved.  `inside` tells whether it is within the tree's
    /// columns and below its top, `row` which flat index its height falls on;
    /// the hovered row becomes that row when it exists.  Returns whether the
    /// hovered row changed.
    pub fn pointer_moved(&mut self, inside: bool, row: usize) -> (changed: bool)
        ensures
            final(self)@ == (TreeModel {
                hover: if inside && row < old(self)@.count() { Some(row as int) } else { None },
                ..old(self)@
            }),
            changed == (final(self)@.hover != old(self)@.hover),
    {
        let new_hover = if inside && row < self.visible_count() {
            Some(row)
        } else {
            None
        };
        let changed = match (new_hover, self.hover_flat_idx) {
            (Some(a), Some(b)) => a != b,
            (None, None) => false,
            _ => true,
        };
        if changed {
            self.hover_flat_idx = new_hover;
        }
        changed
    }

    /// A left press: the hovered row, if any, becomes selected and is toggled.
    /// Returns whether anything changed.
    pub fn click(&mut self) -> (changed: bool)
        requires
            old(self)@.hover is Some ==> old(self)@.hover->0 < usize::MAX,
        ensures
            changed == old(self)@.hover is Some,
            changed ==> final(self)@ == (TreeModel { selected: old(self)@.hover, ..old(self)@ }).toggle(
                old(self)@.hover->0,
            ),
            !changed ==> final(self)@ == old(self)@,
    {
        match self.hover_flat_idx {
            Some(idx) => {
                self.selected_flat_idx = Some(idx);
                self.toggle(idx);
                true
            },
            None => false,
        }
    }

    /// Gives or takes the keyboard focus.
    pub fn set_focus(&mut self, focused: bool)
        ensures
            final(self)@ == (TreeModel { focus: focused, ..old(self)@ }),
    {
        self.focus = focused;
    }

    /// The hovered flat index.
    pub fn hovered(&self) -> (r: Option<usize>)
        ensures
            match r {
                Some(i) => self@.hover == Some(i as int),
                None => self@.hover is None,
            },
    {
        self.hover_flat_idx
    }

    /// The selected flat index.
    pub fn selected(&self) -> (r: Option<usize>)
        ensures
            match r {
                Some(i) => self@.selected == Some(i as int),
                None => self@.selected is None,
            },
    {
        self.selected_flat_idx
    }

    /// Whether the tree has the keyboard focus.
    pub fn has_focus(&self) -> (r: bool)
        ensures
            r == self@.focus,
    {
        self.focus
    }
}

/// Every visible position is a row position, in increasing order.
proof fn visible_in_range(rows: Seq<RowModel>, i: nat, hide: Option<int>)
    ensures
        forall|k: int| 0 <= k < visible_from(rows, i, hide).len() ==> i <= #[trigger] visible_from(rows, i, hide)[k]
            < rows.len(),
        visible_from(rows, i, hide).len() <= if i <= rows.len() { rows.len() - i } else { 0 },
    decreases rows.len() - i,
{
    if i < rows.len() {
        let d = rows[i as int].depth;
        if hide is Some && d > hide->0 {
            visible_in_range(rows, i + 1, hide);
        } else {
            let next = if rows[i as int].is_branch && !rows[i as int].expanded {
                Some(d)
            } else {
                None
            };
            visible_in_range(rows, i + 1, next);
            let rest = visible_from(rows, i + 1, next);
            assert forall|k: int| 0 <= k < visible_from(rows, i, hide).len() implies i
                <= #[trigger] visible_from(rows, i, hide)[k] < rows.len() by {
                if k > 0 {
                    assert(visible_from(rows, i, hide)[k] == rest[k - 1]);
                }
            }
        }
    }
}

/// Changing whether row `k` is expanded does not change which rows up to `k`
/// are visible, nor their flat indices.
proof fn lemma_visible_prefix_stable(rows: Seq<RowModel>, k: int, e: bool, i: nat, hide: Option<int>)
    requires
        0 <= k < rows.len(),
    ensures
        ({
            let r2 = rows.update(k, RowModel { expanded: e, ..rows[k] });
            let v = visible_from(rows, i, hide);
            let v2 = visible_from(r2, i, hide);
            forall|j: int| 0 <= j < v.len() && #[trigger] v[j] <= k ==> j < v2.len() && v2[j] == v[j]
        }),
    decreases rows.len() - i,
{
    let r2 = rows.update(k, RowModel { expanded: e, ..rows[k] });
    visible_in_range(rows, i, hide);
    if i < rows.len() {
        let d = rows[i as int].depth;
        assert(r2[i as int].depth == d);
        assert(r2[i as int].is_branch == rows[i as int].is_branch);
        if hide is Some && d > hide->0 {
            lemma_visible_prefix_stable(rows, k, e, i + 1, hide);
            assert(visible_from(rows, i, hide) == visible_from(rows, i + 1, hide));
            assert(visible_from(r2, i, hide) == visible_from(r2, i + 1, hide));
        } else {
            let next = if rows[i as int].is_branch && !rows[i as int].expanded {
                Some(d)
            } else {
                None
            };
            if i as int != k {
                assert(r2[i as int] == rows[i as int]);
                lemma_visible_prefix_stable(rows, k, e, i + 1, next);
                let v = visible_from(rows, i, hide);
                let v2 = visible_from(r2, i, hide);
                assert forall|j: int| 0 <= j < v.len() && #[trigger] v[j] <= k implies j < v2.len() && v2[j]
                    == v[j] by {
                    if j > 0 {
                        assert(v[j] == visible_from(rows, i + 1, next)[j - 1]);
                        assert(v2[j] == visible_from(r2, i + 1, next)[j - 1]);
                    }
                }
            } else {
                let next2 = if r2[i as int].is_branch && !r2[i as int].expanded {
                    Some(d)
                } else {
                    None
                };
                visible_in_range(rows, i + 1, next);
                let v = visible_from(rows, i, hide);
                let v2 = visible_from(r2, i, hide);
                assert(v == seq![i as int] + visible_from(rows, i + 1, next));
                assert(v2 == seq![i as int] + visible_from(r2, i + 1, next2));
                assert forall|j: int| 0 <= j < v.len() && #[trigger] v[j] <= k implies j < v2.len() && v2[j]
                    == v[j] by {
                    if j > 0 {
                        assert(v[j] == visible_from(rows, i + 1, next)[j - 1]);
                    }
                }
            }
        }
    }
}

/// Expanding or collapsing a node twice in a row leaves the tree as it was:
/// the node keeps its flat index, since only rows below it change
/// visibility.
pub proof fn toggle_twice_restores(m: TreeModel, flat: int)
    ensures
        m.toggle(flat).toggle(flat) == m,
{
    if 0 <= flat < m.count() && m.rows[visible(m.rows)[flat]].is_branch {
        let k = visible(m.rows)[flat];
        visible_in_range(m.rows, 0, None);
        let e = !m.rows[k].expanded;
        let m1 = m.toggle(flat);
        assert(m1.rows == m.rows.update(k, RowModel { expanded: e, ..m.rows[k] }));
        lemma_visible_prefix_stable(m.rows, k, e, 0, None);
        assert(visible(m1.rows)[flat] == k);
        assert(m1.rows[k].is_branch);
        assert(m1.toggle(flat).rows =~= m.rows);
    }
}

/// Row `j` is a collapsed branch and row `k` lies in its subtree: `k` comes
/// after `j`, and every row after `j` up to `k` is deeper than `j`.
pub open spec fn hides(rows: Seq<RowModel>, j: int, k: int) -> bool {
    &&& 0 <= j < k < rows.len()
    &&& rows[j].is_branch
    &&& !rows[j].expanded
    &&& forall|l: int| j < l <= k ==> #[trigger] rows[l].depth > rows[j].depth
}

/// Row `j` is a collapsed branch whose subtree is still running just before
/// row `i`.
spec fn open_at(rows: Seq<RowModel>, j: int, i: int) -> bool {
    &&& 0 <= j < i
    &&& j < rows.len()
    &&& rows[j].is_branch
    &&& !rows[j].expanded
    &&& forall|l: int| j < l < i ==> #[trigger] rows[l].depth > rows[j].depth
}

/// `hide` is the depth of the shallowest collapsed branch whose subtree is
/// running at row `i`, if any.
spec fn hide_tracks(rows: Seq<RowModel>, i: int, hide: Option<int>) -> bool {
    &&& (hide is None ==> forall|j: int| !#[trigger] open_at(rows, j, i))
    &&& (hide is Some ==> exists|j: int| #[trigger] open_at(rows, j, i) && rows[j].depth == hide->0)
    &&& (hide is Some ==> forall|j: int| #[trigger] open_at(rows, j, i) ==> rows[j].depth >= hide->0)
}

proof fn lemma_contains_cons(x: int, r: Seq<int>, k: int)
    ensures
        (seq![x] + r).contains(k) <==> (k == x || r.contains(k)),
{
    let s = seq![x] + r;
    if s.contains(k) {
        let w = choose|w: int| 0 <= w < s.len() && s[w] == k;
        if w > 0 {
            assert(r[w - 1] == k);
        }
    }
    if k == x {
        assert(s[0] == k);
    }
    if r.contains(k) {
        let w = choose|w: int| 0 <= w < r.len() && r[w] == k;
        assert(s[w + 1] == k);
    }
}

proof fn lemma_visible_from_exact(rows: Seq<RowModel>, i: nat, hide: Option<int>)
    requires
        hide_tracks(rows, i as int, hide),
    ensures
        forall|k: int|
            i <= k < rows.len() ==> (#[trigger] visible_from(rows, i, hide).contains(k) <==> !exists|j: int|
                hides(rows, j, k)),
    decreases rows.len() - i,
{
    if i < rows.len() {
        let d = rows[i as int].depth;
        if hide is Some && d > hide->0 {
            let h = hide->0;
            let j0 = choose|j: int| #[trigger] open_at(rows, j, i as int) && rows[j].depth == h;
            assert(open_at(rows, j0, i + 1int));
            assert forall|j: int| #[trigger] open_at(rows, j, i + 1int) implies rows[j].depth >= h by {
                if j < i {
                    assert(open_at(rows, j, i as int));
                }
            }
            assert(hide_tracks(rows, i + 1int, hide));
            lemma_visible_from_exact(rows, i + 1, hide);
            visible_in_range(rows, i + 1, hide);
            assert(hides(rows, j0, i as int));
            assert forall|k: int| i <= k < rows.len() implies (#[trigger] visible_from(rows, i, hide).contains(k)
                <==> !exists|j: int| hides(rows, j, k)) by {
                assert(visible_from(rows, i, hide) == visible_from(rows, i + 1, hide));
                if k == i {
                    let r = visible_from(rows, i + 1, hide);
                    if r.contains(k) {
                        let w = choose|w: int| 0 <= w < r.len() && #[trigger] r[w] == k;
                        assert(i + 1 <= r[w]);
                    }
                }
            }
        } else {
            let next = if rows[i as int].is_branch && !rows[i as int].expanded {
                Some(d)
            } else {
                None
            };
            assert forall|j: int| #[trigger] open_at(rows, j, i + 1int) implies j == i by {
                if j < i {
                    assert(open_at(rows, j, i as int));
                    assert(rows[i as int].depth > rows[j].depth);
                }
            }
            if next is Some {
                assert(open_at(rows, i as int, i + 1int));
            }
            assert(hide_tracks(rows, i + 1int, next));
            lemma_visible_from_exact(rows, i + 1, next);
            let rest = visible_from(rows, i + 1, next);
            visible_in_range(rows, i + 1, next);
            assert(visible_from(rows, i, hide) == seq![i as int] + rest);
            assert forall|j: int| !hides(rows, j, i as int) by {
                if hides(rows, j, i as int) {
                    assert(open_at(rows, j, i as int));
                }
            }
            assert forall|k: int| i <= k < rows.len() implies (#[trigger] visible_from(rows, i, hide).contains(k)
                <==> !exists|j: int| hides(rows, j, k)) by {
                lemma_contains_cons(i as int, rest, k);
                if k == i {
                    assert(!exists|j: int| hides(rows, j, k));
                } else {
                    assert(visible_from(rows, i, hide).contains(k) == rest.contains(k));
                }
            }
        }
    }
}

/// A row is visible exactly when it lies in the subtree of no collapsed
/// branch: no earlier row is a collapsed branch with every row between them
/// deeper than it.
pub proof fn visible_exactly_when_no_collapsed_ancestor(rows: Seq<RowModel>, k: int)
    requires
        0 <= k < rows.len(),
    ensures
        visible(rows).contains(k) <==> !exists|j: int| hides(rows, j, k),
{
    assert(hide_tracks(rows, 0, None));
    lemma_visible_from_exact(rows, 0, None);
    assert(visible_from(rows, 0, None).contains(k) <==> !exists|j: int| hides(rows, j, k));
}

/// Top-level rows are always visible, and so is a row that comes after a
/// collapsed branch's subtree: once a row at the branch's depth or above
/// follows it, that row and its own visibility no longer depend on the
/// branch.  In particular a collapsed branch itself stays visible when it is
/// not inside another collapsed one.
pub proof fn collapsing_hides_only_the_subtree(rows: Seq<RowModel>, k: int, j: int)
    requires
        0 <= k < rows.len(),
        forall|i: int| 0 <= i < rows.len() ==> #[trigger] rows[i].depth >= 0,
    ensures
        rows[k].depth == 0 ==> visible(rows).contains(k),
        0 <= j < k && (exists|l: int| j < l <= k && #[trigger] rows[l].depth <= rows[j].depth) ==> !hides(rows, j, k),
        (forall|i: int| 0 <= i < k ==> !(#[trigger] rows[i].is_branch && !rows[i].expanded)) ==> visible(
            rows,
        ).contains(k),
{
    visible_exactly_when_no_collapsed_ancestor(rows, k);
    if rows[k].depth == 0 {
        assert forall|i: int| !hides(rows, i, k) by {
            if hides(rows, i, k) {
                assert(rows[k].depth > rows[i].depth);
            }
        }
    }
    if (forall|i: int| 0 <= i < k ==> !(#[trigger] rows[i].is_branch && !rows[i].expanded)) {
        assert forall|i: int| !hides(rows, i, k) by {
            if hides(rows, i, k) {
                assert(rows[i].is_branch && !rows[i].expanded);
            }
        }
    }
}

/// A key press on the tree, for the laws below.
pub open spec fn press(k: NamedKey) -> KeyEvent {
    KeyEvent { key: Key::Named(k), pressed: true }
}

/// Down then Up gives back the selection when there is a row below it, and
/// Up then Down when there is a row above it; Down always lands on a visible
/// row; arrows change nothing but the selection.
pub proof fn arrows_move_the_selection_one_row(m: TreeModel)
    ensures
        ({
            let down = tree_key(m, press(NamedKey::ArrowDown)).0;
            let up = tree_key(m, press(NamedKey::ArrowUp)).0;
            &&& m.selected is Some && 0 <= m.selected->0 && m.selected->0 + 1 < m.count() ==> tree_key(
                down,
                press(NamedKey::ArrowUp),
            ).0 == m && down.selected == Some(m.selected->0 + 1)
            &&& m.selected is Some && 0 < m.selected->0 < m.count() ==> tree_key(up, press(NamedKey::ArrowDown)).0
                == m && up.selected == Some(m.selected->0 - 1)
            &&& m.count() > 0 && (m.selected is None || 0 <= m.selected->0) ==> down.selected is Some && 0
                <= down.selected->0 < m.count()
            &&& down.rows == m.rows && up.rows == m.rows
        }),
{
    assert(press(NamedKey::ArrowDown).is_named(NamedKey::ArrowDown));
    assert(!press(NamedKey::ArrowUp).is_named(NamedKey::ArrowDown));
    assert(press(NamedKey::ArrowUp).is_named(NamedKey::ArrowUp));
}

/// Right on a selected collapsed branch expands it and Left then collapses
/// it again, giving back the tree as it was (the branch keeps its row, since
/// only rows below it change).
pub proof fn expand_then_collapse_restores(m: TreeModel)
    requires
        m.selected is Some,
        m.branch_with(m.selected->0, false),
    ensures
        tree_key(m, press(NamedKey::ArrowRight)).1,
        tree_key(tree_key(m, press(NamedKey::ArrowRight)).0, press(NamedKey::ArrowLeft)).0 == m,
        tree_key(m, press(NamedKey::ArrowRight)).0.branch_with(m.selected->0, true),
{
    let f = m.selected->0;
    assert(!press(NamedKey::ArrowRight).is_named(NamedKey::ArrowDown));
    assert(!press(NamedKey::ArrowRight).is_named(NamedKey::ArrowUp));
    assert(press(NamedKey::ArrowRight).is_named(NamedKey::ArrowRight));
    assert(!press(NamedKey::ArrowLeft).is_named(NamedKey::ArrowDown));
    assert(!press(NamedKey::ArrowLeft).is_named(NamedKey::ArrowUp));
    assert(!press(NamedKey::ArrowLeft).is_named(NamedKey::ArrowRight));
    assert(press(NamedKey::ArrowLeft).is_named(NamedKey::ArrowLeft));
    let m1 = m.set_expanded(f, true);
    assert(m1 == m.toggle(f));
    toggle_twice_restores(m, f);
    let k = visible(m.rows)[f];
    visible_in_range(m.rows, 0, None);
    lemma_visible_prefix_stable(m.rows, k, true, 0, None);
    assert(visible(m1.rows)[f] == k);
    assert(m1.branch_with(f, true));
    assert(m1.set_expanded(f, false) == m1.toggle(f));
}

} // verus!
